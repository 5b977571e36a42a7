//! The codec's laws.
//!
//! Round trip: decoding an encoding yields the encoded value and consumes
//! exactly the encoding. Locality: a successful decode is determined by the
//! bytes it consumed. Truncation safety: no strict prefix of an encoding
//! decodes successfully. Length-count fidelity: a list's count prefix is
//! exactly its element count. Unknown-discriminant safety: an unmatched
//! discriminant fails with its raw value, reading nothing further.

use vstd::prelude::*;
use vstd::utf8::{encode_utf8, encode_utf8_decode_utf8, encode_utf8_valid_utf8};

use crate::codec::{
    case_index, corrupt, enc_lens_ok, elems_lens_ok, fields_lens_ok, lemma_case_index,
    lemma_case_index_unique, lemma_cases_wf_index, sdec_elems, sdec_fields, sdec_value, senc_elems,
    senc_fields, senc_value, trunc, DecOut,
};
use crate::error::ErrorKind;
use crate::fixed::{
    be_val, lemma_be_bytes_len, lemma_be_roundtrip, lemma_pow256_values, lemma_signed_twos_inverse,
    pow256, signed_of, twos_of,
};
use crate::schema::{
    cases_closed, cases_wf, disc_in_range, disc_kind, fields_closed, fields_wf, wt_closed, wt_wf,
    CaseModel, FieldModel, TaggedModel, WtModel,
};
use crate::value::{
    elems_fit, fields_fit, int_of, lemma_fields_fit_len, val_fits, value_of_int, ValueModel,
};
use crate::varint::{
    lemma_scan_bound, lemma_scan_local, lemma_varint_minimal, lemma_varint_roundtrip, u32_of_i32,
    varint_dec, varint_enc, varint_value, VarIntScan,
};

verus! {

/// Every case of a closed case sequence has closed fields.
pub proof fn lemma_cases_closed_index(cases: Seq<CaseModel>, i: int)
    requires
        cases_closed(cases),
        0 <= i < cases.len(),
    ensures
        fields_closed(cases[i].fields),
    decreases cases,
{
    if i > 0 {
        lemma_cases_closed_index(cases.drop_first(), i - 1);
    }
}

/// A discriminant value built from a representable literal denotes it back,
/// fits its kind, and encodes without length prefixes.
pub proof fn lemma_disc_value_inverse(t: WtModel, d: i32)
    requires
        disc_kind(t),
        disc_in_range(t, d),
    ensures
        int_of(value_of_int(t, d)) == d as int,
        val_fits(t, value_of_int(t, d)),
        enc_lens_ok(t, value_of_int(t, d)),
        wt_closed(t),
        wt_wf(t),
{
}

/// A successful mathematical decode consumes no more than the stream holds.
pub proof fn lemma_sdec_bound(t: WtModel, s: Seq<u8>)
    requires
        sdec_value(t, s) is Good,
    ensures
        sdec_value(t, s)->Good_n <= s.len(),
    decreases t, 0int, 0int,
{
    match t {
        WtModel::VarInt => {
            lemma_scan_bound(s, 5);
        },
        WtModel::Utf8 => {
            lemma_scan_bound(s, 5);
        },
        WtModel::Optional(inner) => {
            if s.len() >= 1 && s[0] != 0 {
                lemma_sdec_bound(*inner, s.drop_first());
            }
        },
        WtModel::ListOf(inner) => {
            lemma_scan_bound(s, 5);
            if varint_dec(s) is Found {
                let len = varint_dec(s)->len;
                let count = varint_value(varint_dec(s)->value);
                if count >= 0 {
                    lemma_sdec_elems_bound(*inner, s.skip(len as int), count as nat);
                }
            }
        },
        WtModel::Tagged(tm) => {
            let d = sdec_value(*tm.disc, s);
            lemma_sdec_bound(*tm.disc, s);
            if d is Good {
                let idx = case_index(tm.cases, int_of(d->Good_v));
                lemma_case_index(tm.cases, int_of(d->Good_v));
                if idx >= 0 {
                    lemma_sdec_fields_bound(
                        tm.name,
                        tm.cases[idx].fields,
                        s.skip(d->Good_n as int),
                    );
                }
            }
        },
        _ => {},
    }
}

/// A successful element-sequence decode consumes no more than the stream holds.
pub proof fn lemma_sdec_elems_bound(t: WtModel, s: Seq<u8>, k: nat)
    requires
        sdec_elems(t, s, k) is Good,
    ensures
        sdec_elems(t, s, k)->Good_n <= s.len(),
    decreases t, 1int, k,
{
    if k > 0 {
        lemma_sdec_bound(t, s);
        let d = sdec_value(t, s);
        lemma_sdec_elems_bound(t, s.skip(d->Good_n as int), (k - 1) as nat);
    }
}

/// A successful field-list decode consumes no more than the stream holds.
pub proof fn lemma_sdec_fields_bound(owner: Seq<char>, fields: Seq<FieldModel>, s: Seq<u8>)
    requires
        sdec_fields(owner, fields, s) is Good,
    ensures
        sdec_fields(owner, fields, s)->Good_n <= s.len(),
    decreases fields, 0int, 0int,
{
    if fields.len() > 0 {
        lemma_sdec_bound(fields[0].ty, s);
        let d = sdec_value(fields[0].ty, s);
        lemma_sdec_fields_bound(owner, fields.drop_first(), s.skip(d->Good_n as int));
    }
}

/// Round trip for one value: decoding its encoding, whatever follows it,
/// yields the value and consumes exactly the encoding.
#[verifier::rlimit(100)]
pub proof fn lemma_value_roundtrip(t: WtModel, v: ValueModel, rest: Seq<u8>)
    requires
        val_fits(t, v),
        enc_lens_ok(t, v),
        wt_closed(t),
        wt_wf(t),
    ensures
        sdec_value(t, senc_value(t, v) + rest) == (DecOut::Good {
            v,
            n: senc_value(t, v).len(),
        }),
    decreases t, 0int, 0int,
{
    let e = senc_value(t, v);
    let s = e + rest;
    lemma_pow256_values();
    reveal_with_fuel(crate::fixed::be_bytes, 3);
    match t {
        WtModel::Bool => {
            assert(s[0] == e[0]);
        },
        WtModel::U8 => {
            if let ValueModel::U8(x) = v {
                assert(e =~= seq![x]);
                assert(s[0] == x);
            }
        },
        WtModel::I8 => {
            if let ValueModel::I8(x) = v {
                lemma_signed_twos_inverse(x as int, 1);
                assert(e =~= seq![(twos_of(x as int, 1)) as u8]);
                assert(s[0] as nat == twos_of(x as int, 1));
            }
        },
        WtModel::U16 => {
            if let ValueModel::U16(x) = v {
                lemma_be_bytes_len(x as nat, 2);
                lemma_be_roundtrip(x as nat, 2);
                assert(s.subrange(0, 2) =~= e);
            }
        },
        WtModel::I16 => {
            if let ValueModel::I16(x) = v {
                lemma_signed_twos_inverse(x as int, 2);
                lemma_be_bytes_len(twos_of(x as int, 2), 2);
                lemma_be_roundtrip(twos_of(x as int, 2), 2);
                assert(s.subrange(0, 2) =~= e);
            }
        },
        WtModel::I32 => {
            if let ValueModel::I32(x) = v {
                lemma_signed_twos_inverse(x as int, 4);
                lemma_be_bytes_len(twos_of(x as int, 4), 4);
                lemma_be_roundtrip(twos_of(x as int, 4), 4);
                assert(s.subrange(0, 4) =~= e);
            }
        },
        WtModel::U64 => {
            if let ValueModel::U64(x) = v {
                lemma_be_bytes_len(x as nat, 8);
                lemma_be_roundtrip(x as nat, 8);
                assert(s.subrange(0, 8) =~= e);
            }
        },
        WtModel::I64 => {
            if let ValueModel::I64(x) = v {
                lemma_signed_twos_inverse(x as int, 8);
                lemma_be_bytes_len(twos_of(x as int, 8), 8);
                lemma_be_roundtrip(twos_of(x as int, 8), 8);
                assert(s.subrange(0, 8) =~= e);
            }
        },
        WtModel::F32Bits => {
            if let ValueModel::F32Bits(x) = v {
                lemma_be_bytes_len(x as nat, 4);
                lemma_be_roundtrip(x as nat, 4);
                assert(s.subrange(0, 4) =~= e);
            }
        },
        WtModel::F64Bits => {
            if let ValueModel::F64Bits(x) = v {
                lemma_be_bytes_len(x as nat, 8);
                lemma_be_roundtrip(x as nat, 8);
                assert(s.subrange(0, 8) =~= e);
            }
        },
        WtModel::Angle => {
            if let ValueModel::Angle(x) = v {
                assert(e =~= seq![x]);
                assert(s[0] == x);
            }
        },
        WtModel::UuidBits => {
            if let ValueModel::UuidBits(x) = v {
                lemma_be_bytes_len(x as nat, 16);
                lemma_be_roundtrip(x as nat, 16);
                assert(s.subrange(0, 16) =~= e);
            }
        },
        WtModel::BlockPos => {
            if let ValueModel::BlockPos(x) = v {
                lemma_be_bytes_len(x as nat, 8);
                lemma_be_roundtrip(x as nat, 8);
                assert(s.subrange(0, 8) =~= e);
            }
        },
        WtModel::VarInt => {
            if let ValueModel::VarInt(n) = v {
                lemma_varint_roundtrip(n, rest);
            }
        },
        WtModel::Utf8 => {
            if let ValueModel::Utf8(cs) = v {
                let bs = encode_utf8(cs);
                let len_i = bs.len() as i32;
                assert(s =~= varint_enc(len_i) + (bs + rest));
                lemma_varint_roundtrip(len_i, bs + rest);
                let len = varint_enc(len_i).len();
                assert(varint_value(u32_of_i32(len_i)) == bs.len());
                assert(s.subrange(len as int, len + bs.len() as int) =~= bs);
                encode_utf8_valid_utf8(cs);
                encode_utf8_decode_utf8(cs);
            }
        },
        WtModel::Remainder => {
            assert(false);
        },
        WtModel::Optional(inner) => {
            if let ValueModel::Optional(o) = v {
                match o {
                    Option::None => {
                        assert(s[0] == 0);
                    },
                    Option::Some(b) => {
                        assert(s[0] == 1);
                        assert(s.drop_first() =~= senc_value(*inner, *b) + rest);
                        lemma_value_roundtrip(*inner, *b, rest);
                    },
                }
            }
        },
        WtModel::ListOf(inner) => {
            if let ValueModel::ListOf(vs) = v {
                let k_i = vs.len() as i32;
                let body = senc_elems(*inner, vs);
                assert(s =~= varint_enc(k_i) + (body + rest));
                lemma_varint_roundtrip(k_i, body + rest);
                let len = varint_enc(k_i).len();
                assert(varint_value(u32_of_i32(k_i)) == vs.len());
                assert(s.skip(len as int) =~= body + rest);
                lemma_elems_roundtrip(*inner, vs, rest);
            }
        },
        WtModel::Tagged(tm) => {
            if let ValueModel::Tagged { case, fields } = v {
                let d = tm.cases[case as int].disc;
                let dv = value_of_int(*tm.disc, d);
                lemma_disc_value_inverse(*tm.disc, d);
                let de = senc_value(*tm.disc, dv);
                let fe = senc_fields(tm.cases[case as int].fields, fields);
                assert(s =~= de + (fe + rest));
                lemma_value_roundtrip(*tm.disc, dv, fe + rest);
                lemma_case_index_unique(tm.cases, case as int);
                assert(s.skip(de.len() as int) =~= fe + rest);
                lemma_cases_wf_index(tm.cases, case as int);
                lemma_cases_closed_index(tm.cases, case as int);
                lemma_fields_roundtrip(tm.name, tm.cases[case as int].fields, fields, rest);
            }
        },
    }
}

/// Round trip for a list's elements.
pub proof fn lemma_elems_roundtrip(t: WtModel, vs: Seq<ValueModel>, rest: Seq<u8>)
    requires
        elems_fit(t, vs),
        elems_lens_ok(t, vs),
        wt_closed(t),
        wt_wf(t),
    ensures
        sdec_elems(t, senc_elems(t, vs) + rest, vs.len()) == (DecOut::Good {
            v: vs,
            n: senc_elems(t, vs).len(),
        }),
    decreases t, 1int, vs.len(),
{
    if vs.len() == 0 {
        assert(vs =~= Seq::<ValueModel>::empty());
    } else {
        let e0 = senc_value(t, vs[0]);
        let etail = senc_elems(t, vs.drop_first());
        let s = senc_elems(t, vs) + rest;
        assert(s =~= e0 + (etail + rest));
        lemma_value_roundtrip(t, vs[0], etail + rest);
        assert(s.skip(e0.len() as int) =~= etail + rest);
        lemma_elems_roundtrip(t, vs.drop_first(), rest);
        assert(seq![vs[0]] + vs.drop_first() =~= vs);
    }
}

/// Round trip for a field list.
pub proof fn lemma_fields_roundtrip(
    owner: Seq<char>,
    fields: Seq<FieldModel>,
    vals: Seq<ValueModel>,
    rest: Seq<u8>,
)
    requires
        fields_fit(fields, vals),
        fields_lens_ok(fields, vals),
        fields_closed(fields),
        fields_wf(fields),
    ensures
        sdec_fields(owner, fields, senc_fields(fields, vals) + rest) == (DecOut::Good {
            v: vals,
            n: senc_fields(fields, vals).len(),
        }),
    decreases fields, 0int, 0int,
{
    if fields.len() == 0 {
        assert(vals =~= Seq::<ValueModel>::empty());
    } else {
        let e0 = senc_value(fields[0].ty, vals[0]);
        let etail = senc_fields(fields.drop_first(), vals.drop_first());
        let s = senc_fields(fields, vals) + rest;
        assert(s =~= e0 + (etail + rest));
        lemma_value_roundtrip(fields[0].ty, vals[0], etail + rest);
        assert(s.skip(e0.len() as int) =~= etail + rest);
        lemma_fields_roundtrip(owner, fields.drop_first(), vals.drop_first(), rest);
        assert(seq![vals[0]] + vals.drop_first() =~= vals);
    }
}


/// Locality: a successful decode of a closed wire type is determined by the
/// bytes it consumed; any stream sharing them decodes identically.
#[verifier::rlimit(100)]
pub proof fn lemma_value_local(t: WtModel, s: Seq<u8>, s2: Seq<u8>)
    requires
        wt_closed(t),
        sdec_value(t, s) is Good,
        sdec_value(t, s)->Good_n <= s2.len(),
        s2.subrange(0, sdec_value(t, s)->Good_n as int) == s.subrange(
            0,
            sdec_value(t, s)->Good_n as int,
        ),
    ensures
        sdec_value(t, s2) == sdec_value(t, s),
    decreases t, 0int, 0int,
{
    let n = sdec_value(t, s)->Good_n as int;
    lemma_sdec_bound(t, s);
    assert forall|j: int| 0 <= j < n implies s2[j] == s[j] by {
        assert(s2.subrange(0, n)[j] == s.subrange(0, n)[j]);
    }
    match t {
        WtModel::Bool | WtModel::U8 | WtModel::I8 | WtModel::Angle => {
        },
        WtModel::U16 | WtModel::I16 => {
            assert(s2.subrange(0, 2) =~= s.subrange(0, 2));
        },
        WtModel::I32 | WtModel::F32Bits => {
            assert(s2.subrange(0, 4) =~= s.subrange(0, 4));
        },
        WtModel::U64 | WtModel::I64 | WtModel::F64Bits | WtModel::BlockPos => {
            assert(s2.subrange(0, 8) =~= s.subrange(0, 8));
        },
        WtModel::UuidBits => {
            assert(s2.subrange(0, 16) =~= s.subrange(0, 16));
        },
        WtModel::VarInt => {
            lemma_scan_bound(s, 5);
            assert(s2.subrange(0, varint_dec(s)->len as int) =~= s.subrange(
                0,
                varint_dec(s)->len as int,
            ));
            lemma_scan_local(s, 5, s2);
        },
        WtModel::Utf8 => {
            lemma_scan_bound(s, 5);
            let len = varint_dec(s)->len as int;
            let count = varint_value(varint_dec(s)->value);
            assert(s2.subrange(0, len) =~= s.subrange(0, len));
            lemma_scan_local(s, 5, s2);
            assert(s2.subrange(len, len + count) =~= s.subrange(len, len + count));
        },
        WtModel::Remainder => {
            assert(false);
        },
        WtModel::Optional(inner) => {
            assert(s2[0] == s[0]);
            if s[0] != 0 {
                let d = sdec_value(*inner, s.drop_first());
                assert(s2.drop_first().subrange(0, d->Good_n as int) =~= s.drop_first().subrange(
                    0,
                    d->Good_n as int,
                ));
                lemma_value_local(*inner, s.drop_first(), s2.drop_first());
            }
        },
        WtModel::ListOf(inner) => {
            lemma_scan_bound(s, 5);
            let len = varint_dec(s)->len as int;
            let count = varint_value(varint_dec(s)->value);
            assert(s2.subrange(0, len) =~= s.subrange(0, len));
            lemma_scan_local(s, 5, s2);
            let d = sdec_elems(*inner, s.skip(len), count as nat);
            assert(s2.skip(len).subrange(0, d->Good_n as int) =~= s.skip(len).subrange(
                0,
                d->Good_n as int,
            ));
            lemma_elems_local(*inner, s.skip(len), s2.skip(len), count as nat);
        },
        WtModel::Tagged(tm) => {
            let d = sdec_value(*tm.disc, s);
            lemma_sdec_bound(*tm.disc, s);
            let n1 = d->Good_n as int;
            assert(s2.subrange(0, n1) =~= s.subrange(0, n1));
            lemma_value_local(*tm.disc, s, s2);
            let idx = case_index(tm.cases, int_of(d->Good_v));
            lemma_case_index(tm.cases, int_of(d->Good_v));
            let fd = sdec_fields(tm.name, tm.cases[idx].fields, s.skip(n1));
            lemma_cases_closed_index(tm.cases, idx);
            assert(s2.skip(n1).subrange(0, fd->Good_n as int) =~= s.skip(n1).subrange(
                0,
                fd->Good_n as int,
            ));
            lemma_fields_local(tm.name, tm.cases[idx].fields, s.skip(n1), s2.skip(n1));
        },
    }
}

/// Locality for a list's elements.
pub proof fn lemma_elems_local(t: WtModel, s: Seq<u8>, s2: Seq<u8>, k: nat)
    requires
        wt_closed(t),
        sdec_elems(t, s, k) is Good,
        sdec_elems(t, s, k)->Good_n <= s2.len(),
        s2.subrange(0, sdec_elems(t, s, k)->Good_n as int) == s.subrange(
            0,
            sdec_elems(t, s, k)->Good_n as int,
        ),
    ensures
        sdec_elems(t, s2, k) == sdec_elems(t, s, k),
    decreases t, 1int, k,
{
    if k > 0 {
        let n = sdec_elems(t, s, k)->Good_n as int;
        let d = sdec_value(t, s);
        let n1 = d->Good_n as int;
        lemma_sdec_bound(t, s);
        lemma_sdec_elems_bound(t, s, k);
        lemma_sdec_elems_bound(t, s.skip(n1), (k - 1) as nat);
        assert forall|j: int| 0 <= j < n implies s2[j] == s[j] by {
            assert(s2.subrange(0, n)[j] == s.subrange(0, n)[j]);
        }
        assert(s2.subrange(0, n1) =~= s.subrange(0, n1));
        lemma_value_local(t, s, s2);
        let dr = sdec_elems(t, s.skip(n1), (k - 1) as nat);
        assert(s2.skip(n1).subrange(0, dr->Good_n as int) =~= s.skip(n1).subrange(
            0,
            dr->Good_n as int,
        ));
        lemma_elems_local(t, s.skip(n1), s2.skip(n1), (k - 1) as nat);
    }
}

/// Locality for a field list.
pub proof fn lemma_fields_local(owner: Seq<char>, fields: Seq<FieldModel>, s: Seq<u8>, s2: Seq<u8>)
    requires
        fields_closed(fields),
        sdec_fields(owner, fields, s) is Good,
        sdec_fields(owner, fields, s)->Good_n <= s2.len(),
        s2.subrange(0, sdec_fields(owner, fields, s)->Good_n as int) == s.subrange(
            0,
            sdec_fields(owner, fields, s)->Good_n as int,
        ),
    ensures
        sdec_fields(owner, fields, s2) == sdec_fields(owner, fields, s),
    decreases fields, 0int, 0int,
{
    if fields.len() > 0 {
        let n = sdec_fields(owner, fields, s)->Good_n as int;
        let d = sdec_value(fields[0].ty, s);
        let n1 = d->Good_n as int;
        lemma_sdec_bound(fields[0].ty, s);
        lemma_sdec_fields_bound(owner, fields, s);
        lemma_sdec_fields_bound(owner, fields.drop_first(), s.skip(n1));
        assert forall|j: int| 0 <= j < n implies s2[j] == s[j] by {
            assert(s2.subrange(0, n)[j] == s.subrange(0, n)[j]);
        }
        assert(s2.subrange(0, n1) =~= s.subrange(0, n1));
        lemma_value_local(fields[0].ty, s, s2);
        let dr = sdec_fields(owner, fields.drop_first(), s.skip(n1));
        assert(s2.skip(n1).subrange(0, dr->Good_n as int) =~= s.skip(n1).subrange(
            0,
            dr->Good_n as int,
        ));
        lemma_fields_local(owner, fields.drop_first(), s.skip(n1), s2.skip(n1));
    }
}

/// Truncation safety: no strict prefix of a closed value's encoding decodes
/// successfully; a truncated stream can only fail.
pub proof fn lemma_truncation_safety(t: WtModel, v: ValueModel, m: int)
    requires
        val_fits(t, v),
        enc_lens_ok(t, v),
        wt_closed(t),
        wt_wf(t),
        0 <= m < senc_value(t, v).len(),
    ensures
        !(sdec_value(t, senc_value(t, v).subrange(0, m)) is Good),
{
    let full = senc_value(t, v);
    assert(full + Seq::<u8>::empty() =~= full);
    lemma_value_roundtrip(t, v, Seq::empty());
    let p = full.subrange(0, m);
    if sdec_value(t, p) is Good {
        let n = sdec_value(t, p)->Good_n as int;
        lemma_sdec_bound(t, p);
        assert(full.subrange(0, n) =~= p.subrange(0, n));
        lemma_value_local(t, p, full);
        assert(false);
    }
}

/// Length-count fidelity: the count prefix of an encoded list reads back as
/// exactly the element count.
pub proof fn lemma_length_count_fidelity(t: WtModel, vs: Seq<ValueModel>)
    requires
        vs.len() < 0x8000_0000,
    ensures
        varint_dec(senc_value(WtModel::ListOf(Box::new(t)), ValueModel::ListOf(vs))) is Found,
        varint_value(
            varint_dec(senc_value(WtModel::ListOf(Box::new(t)), ValueModel::ListOf(vs)))->value,
        ) == vs.len(),
{
    let enc = senc_value(WtModel::ListOf(Box::new(t)), ValueModel::ListOf(vs));
    lemma_varint_roundtrip(vs.len() as i32, senc_elems(t, vs));
    assert(enc =~= varint_enc(vs.len() as i32) + senc_elems(t, vs));
}

/// Unknown-discriminant safety: a well-formed discriminant that matches no
/// case fails with exactly that raw value, and nothing beyond the
/// discriminant is read.
pub proof fn lemma_unknown_variant_safety(tm: TaggedModel, s: Seq<u8>)
    requires
        sdec_value(*tm.disc, s) is Good,
        forall|i: int|
            0 <= i < tm.cases.len() ==> tm.cases[i].disc as int != int_of(
                sdec_value(*tm.disc, s)->Good_v,
            ),
    ensures
        sdec_value(WtModel::Tagged(tm), s) == (DecOut::Bad::<ValueModel> {
            kind: ErrorKind::UnknownVariant(int_of(sdec_value(*tm.disc, s)->Good_v) as i32),
            trail: Seq::empty(),
        }),
{
    let d = int_of(sdec_value(*tm.disc, s)->Good_v);
    lemma_case_index(tm.cases, d);
    if case_index(tm.cases, d) >= 0 {
        assert(tm.cases[case_index(tm.cases, d)].disc as int != d);
        assert(false);
    }
}

} // verus!
