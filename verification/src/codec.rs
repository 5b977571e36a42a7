//! The generic codec engine.
//!
//! One interpreter reads and writes any value against its wire type, any
//! field list against its schema, and any tagged variant against its variant
//! schema. The mathematical encoders and decoders here are the meaning of the
//! wire format; the executable engine below them is proved to agree with
//! them byte for byte.

use vstd::prelude::*;
use vstd::string::StrSliceExecFns;
use vstd::utf8::{decode_utf8, encode_utf8, valid_utf8};

use crate::error::{CodecError, ErrorKind, TraceModel};
use crate::fixed::{
    be_bytes, be_val, i16_to_u16, i64_to_u64, i8_to_u8, lemma_be_val_bound, lemma_pow256_mono,
    lemma_pow256_values, lemma_signed_twos_inverse, pow256, read_be, signed_of, twos_of,
    u16_to_i16, u64_to_i64, u8_to_i8, write_be,
};
use crate::schema::{
    cases_model, cases_wf, disc_in_range, disc_kind, fields_model, fields_wf,
    lemma_cases_model_index, lemma_fields_model_index, wt_model, wt_wf, CaseModel,
    FieldDescriptor, FieldModel, TaggedSchema, VariantCase, WireType, WtModel,
};
use crate::value::{
    elems_fit, fields_fit, int_of, lemma_fields_fit_len, lemma_values_model_index, val_fits,
    value_model, value_of_int, values_model, Value, ValueModel,
};
use crate::varint::{
    i32_to_u32, read_varint, u32_of_i32, u32_to_i32, varint_dec, varint_enc, varint_value,
    write_varint, VarIntScan,
};
use crate::version::ProtocolVersion;

verus! {

/// Outcome of a mathematical decode: the decoded value and the number of
/// bytes consumed, or a failure with its annotation trail, innermost first.
pub ghost enum DecOut<T> {
    Good { v: T, n: nat },
    Bad { kind: ErrorKind, trail: Seq<TraceModel> },
}

/// The index of the first case whose discriminant literal equals `d`, or -1.
pub open spec fn case_index(cases: Seq<CaseModel>, d: int) -> int
    decreases cases,
{
    if cases.len() == 0 {
        -1
    } else if cases[0].disc == d {
        0
    } else {
        let r = case_index(cases.drop_first(), d);
        if r < 0 {
            -1
        } else {
            r + 1
        }
    }
}

/// A found case index is in range and matches; a miss means no case matches.
pub proof fn lemma_case_index(cases: Seq<CaseModel>, d: int)
    ensures
        case_index(cases, d) >= 0 ==> 0 <= case_index(cases, d) < cases.len() && cases[case_index(
            cases,
            d,
        )].disc == d,
        case_index(cases, d) >= 0 ==> forall|i: int|
            0 <= i < case_index(cases, d) ==> cases[i].disc != d,
        case_index(cases, d) < 0 ==> forall|i: int| 0 <= i < cases.len() ==> cases[i].disc != d,
    decreases cases,
{
    if cases.len() > 0 {
        lemma_case_index(cases.drop_first(), d);
        if case_index(cases, d) < 0 {
            assert forall|i: int| 0 <= i < cases.len() implies cases[i].disc != d by {
                if i > 0 {
                    assert(cases.drop_first()[i - 1].disc != d);
                }
            }
        } else {
            assert forall|i: int| 0 <= i < case_index(cases, d) implies cases[i].disc != d by {
                if i > 0 {
                    assert(cases.drop_first()[i - 1].disc != d);
                }
            }
        }
    }
}

/// Under unique discriminants, the lookup returns the matching case itself.
pub proof fn lemma_case_index_unique(cases: Seq<CaseModel>, i: int)
    requires
        forall|a: int, b: int| 0 <= a < b < cases.len() ==> cases[a].disc != cases[b].disc,
        0 <= i < cases.len(),
    ensures
        case_index(cases, cases[i].disc as int) == i,
    decreases cases,
{
    if i > 0 {
        lemma_case_index_unique(cases.drop_first(), i - 1);
    }
}

/// Decodes one value of wire type `t` from the front of `s`.
pub open spec fn sdec_value(t: WtModel, s: Seq<u8>) -> DecOut<ValueModel>
    decreases t, 0int, 0int,
    via sdec_value_dec
{
    match t {
        WtModel::Bool => if s.len() < 1 {
            trunc()
        } else {
            DecOut::Good { v: ValueModel::Bool(s[0] != 0), n: 1 }
        },
        WtModel::U8 => if s.len() < 1 {
            trunc()
        } else {
            DecOut::Good { v: ValueModel::U8(s[0]), n: 1 }
        },
        WtModel::I8 => if s.len() < 1 {
            trunc()
        } else {
            DecOut::Good { v: ValueModel::I8(signed_of(s[0] as nat, 1) as i8), n: 1 }
        },
        WtModel::U16 => if s.len() < 2 {
            trunc()
        } else {
            DecOut::Good { v: ValueModel::U16(be_val(s.subrange(0, 2)) as u16), n: 2 }
        },
        WtModel::I16 => if s.len() < 2 {
            trunc()
        } else {
            DecOut::Good { v: ValueModel::I16(signed_of(be_val(s.subrange(0, 2)), 2) as i16), n: 2 }
        },
        WtModel::I32 => if s.len() < 4 {
            trunc()
        } else {
            DecOut::Good { v: ValueModel::I32(signed_of(be_val(s.subrange(0, 4)), 4) as i32), n: 4 }
        },
        WtModel::U64 => if s.len() < 8 {
            trunc()
        } else {
            DecOut::Good { v: ValueModel::U64(be_val(s.subrange(0, 8)) as u64), n: 8 }
        },
        WtModel::I64 => if s.len() < 8 {
            trunc()
        } else {
            DecOut::Good { v: ValueModel::I64(signed_of(be_val(s.subrange(0, 8)), 8) as i64), n: 8 }
        },
        WtModel::F32Bits => if s.len() < 4 {
            trunc()
        } else {
            DecOut::Good { v: ValueModel::F32Bits(be_val(s.subrange(0, 4)) as u32), n: 4 }
        },
        WtModel::F64Bits => if s.len() < 8 {
            trunc()
        } else {
            DecOut::Good { v: ValueModel::F64Bits(be_val(s.subrange(0, 8)) as u64), n: 8 }
        },
        WtModel::Angle => if s.len() < 1 {
            trunc()
        } else {
            DecOut::Good { v: ValueModel::Angle(s[0]), n: 1 }
        },
        WtModel::UuidBits => if s.len() < 16 {
            trunc()
        } else {
            DecOut::Good { v: ValueModel::UuidBits(be_val(s.subrange(0, 16)) as u128), n: 16 }
        },
        WtModel::BlockPos => if s.len() < 8 {
            trunc()
        } else {
            DecOut::Good { v: ValueModel::BlockPos(be_val(s.subrange(0, 8)) as u64), n: 8 }
        },
        WtModel::VarInt => match varint_dec(s) {
            VarIntScan::Found { value, len } => DecOut::Good {
                v: ValueModel::VarInt(varint_value(value) as i32),
                n: len,
            },
            VarIntScan::Short => trunc(),
            VarIntScan::TooLong => corrupt(),
        },
        WtModel::Utf8 => match varint_dec(s) {
            VarIntScan::Found { value, len } => {
                let count = varint_value(value);
                if count < 0 || len + count > s.len() {
                    trunc()
                } else {
                    let bs = s.subrange(len as int, len + count);
                    if valid_utf8(bs) {
                        DecOut::Good { v: ValueModel::Utf8(decode_utf8(bs)), n: (len + count) as nat }
                    } else {
                        DecOut::Bad { kind: ErrorKind::InvalidUtf8, trail: Seq::empty() }
                    }
                }
            },
            VarIntScan::Short => trunc(),
            VarIntScan::TooLong => corrupt(),
        },
        WtModel::Remainder => DecOut::Good { v: ValueModel::Remainder(s), n: s.len() },
        WtModel::Optional(inner) => if s.len() < 1 {
            trunc()
        } else if s[0] == 0 {
            DecOut::Good { v: ValueModel::Optional(Option::None), n: 1 }
        } else {
            match sdec_value(*inner, s.drop_first()) {
                DecOut::Good { v, n } => DecOut::Good {
                    v: ValueModel::Optional(Option::Some(Box::new(v))),
                    n: n + 1,
                },
                b => b,
            }
        },
        WtModel::ListOf(inner) => match varint_dec(s) {
            VarIntScan::Found { value, len } => {
                let count = varint_value(value);
                if count < 0 {
                    trunc()
                } else {
                    match sdec_elems(*inner, s.skip(len as int), count as nat) {
                        DecOut::Good { v, n } => DecOut::Good {
                            v: ValueModel::ListOf(v),
                            n: len + n,
                        },
                        DecOut::Bad { kind, trail } => DecOut::Bad { kind, trail },
                    }
                }
            },
            VarIntScan::Short => trunc(),
            VarIntScan::TooLong => corrupt(),
        },
        WtModel::Tagged(tm) => match sdec_value(*tm.disc, s) {
            DecOut::Good { v: dv, n: n1 } => {
                let idx = case_index(tm.cases, int_of(dv));
                if idx < 0 {
                    DecOut::Bad {
                        kind: ErrorKind::UnknownVariant(int_of(dv) as i32),
                        trail: Seq::empty(),
                    }
                } else {
                    match sdec_fields(tm.name, tm.cases[idx].fields, s.skip(n1 as int)) {
                        DecOut::Good { v: vals, n: n2 } => DecOut::Good {
                            v: ValueModel::Tagged { case: idx as nat, fields: vals },
                            n: n1 + n2,
                        },
                        DecOut::Bad { kind, trail } => DecOut::Bad { kind, trail },
                    }
                }
            },
            DecOut::Bad { kind, trail } => DecOut::Bad {
                kind,
                trail: trail.push((TraceModel { owner: tm.name, field: Seq::empty() })),
            },
        },
    }
}

#[via_fn]
proof fn sdec_value_dec(t: WtModel, s: Seq<u8>) {
    if let WtModel::Tagged(tm) = t {
        assert forall|d: int| #[trigger] case_index(tm.cases, d) >= 0 implies (decreases_to!(t
            => tm.cases[case_index(tm.cases, d)].fields)) by {
            lemma_case_index(tm.cases, d);
            let i = case_index(tm.cases, d);
            assert(decreases_to!(t => tm.cases));
            assert(decreases_to!(tm.cases => tm.cases[i]));
            assert(decreases_to!(tm.cases[i] => tm.cases[i].fields));
        }
    }
}

/// A fresh truncation failure.
pub open spec fn trunc() -> DecOut<ValueModel> {
    DecOut::Bad { kind: ErrorKind::TruncatedInput, trail: Seq::empty() }
}

/// A fresh corrupt-VarInt failure.
pub open spec fn corrupt() -> DecOut<ValueModel> {
    DecOut::Bad { kind: ErrorKind::CorruptVarInt, trail: Seq::empty() }
}

/// Decodes `k` values of wire type `t`, in order, from the front of `s`.
pub open spec fn sdec_elems(t: WtModel, s: Seq<u8>, k: nat) -> DecOut<Seq<ValueModel>>
    decreases t, 1int, k,
{
    if k == 0 {
        DecOut::Good { v: Seq::empty(), n: 0 }
    } else {
        match sdec_value(t, s) {
            DecOut::Good { v, n } => match sdec_elems(t, s.skip(n as int), (k - 1) as nat) {
                DecOut::Good { v: vs, n: n2 } => DecOut::Good { v: seq![v] + vs, n: n + n2 },
                DecOut::Bad { kind, trail } => DecOut::Bad { kind, trail },
            },
            DecOut::Bad { kind, trail } => DecOut::Bad { kind, trail },
        }
    }
}

/// Decodes one value per field, in declared order, from the front of `s`,
/// annotating a failure with the owner's and the offending field's names.
pub open spec fn sdec_fields(owner: Seq<char>, fields: Seq<FieldModel>, s: Seq<u8>) -> DecOut<
    Seq<ValueModel>,
>
    decreases fields, 0int, 0int,
{
    if fields.len() == 0 {
        DecOut::Good { v: Seq::empty(), n: 0 }
    } else {
        match sdec_value(fields[0].ty, s) {
            DecOut::Good { v, n } => match sdec_fields(owner, fields.drop_first(), s.skip(n as int)) {
                DecOut::Good { v: vs, n: n2 } => DecOut::Good { v: seq![v] + vs, n: n + n2 },
                DecOut::Bad { kind, trail } => DecOut::Bad { kind, trail },
            },
            DecOut::Bad { kind, trail } => DecOut::Bad {
                kind,
                trail: trail.push((TraceModel { owner, field: fields[0].name })),
            },
        }
    }
}

/// Encodes one value of wire type `t`. Meaningful when the value fits the
/// type and, for a tagged type, the schema is well formed.
pub open spec fn senc_value(t: WtModel, v: ValueModel) -> Seq<u8>
    decreases t, 0int, 0int,
{
    match t {
        WtModel::Bool => match v {
            ValueModel::Bool(b) => seq![if b { 1u8 } else { 0u8 }],
            _ => Seq::empty(),
        },
        WtModel::U8 => match v {
            ValueModel::U8(x) => be_bytes(x as nat, 1),
            _ => Seq::empty(),
        },
        WtModel::I8 => match v {
            ValueModel::I8(x) => be_bytes(twos_of(x as int, 1), 1),
            _ => Seq::empty(),
        },
        WtModel::U16 => match v {
            ValueModel::U16(x) => be_bytes(x as nat, 2),
            _ => Seq::empty(),
        },
        WtModel::I16 => match v {
            ValueModel::I16(x) => be_bytes(twos_of(x as int, 2), 2),
            _ => Seq::empty(),
        },
        WtModel::I32 => match v {
            ValueModel::I32(x) => be_bytes(twos_of(x as int, 4), 4),
            _ => Seq::empty(),
        },
        WtModel::U64 => match v {
            ValueModel::U64(x) => be_bytes(x as nat, 8),
            _ => Seq::empty(),
        },
        WtModel::I64 => match v {
            ValueModel::I64(x) => be_bytes(twos_of(x as int, 8), 8),
            _ => Seq::empty(),
        },
        WtModel::F32Bits => match v {
            ValueModel::F32Bits(x) => be_bytes(x as nat, 4),
            _ => Seq::empty(),
        },
        WtModel::F64Bits => match v {
            ValueModel::F64Bits(x) => be_bytes(x as nat, 8),
            _ => Seq::empty(),
        },
        WtModel::Angle => match v {
            ValueModel::Angle(x) => be_bytes(x as nat, 1),
            _ => Seq::empty(),
        },
        WtModel::UuidBits => match v {
            ValueModel::UuidBits(x) => be_bytes(x as nat, 16),
            _ => Seq::empty(),
        },
        WtModel::BlockPos => match v {
            ValueModel::BlockPos(x) => be_bytes(x as nat, 8),
            _ => Seq::empty(),
        },
        WtModel::VarInt => match v {
            ValueModel::VarInt(n) => varint_enc(n),
            _ => Seq::empty(),
        },
        WtModel::Utf8 => match v {
            ValueModel::Utf8(cs) => varint_enc(encode_utf8(cs).len() as i32) + encode_utf8(cs),
            _ => Seq::empty(),
        },
        WtModel::Remainder => match v {
            ValueModel::Remainder(bs) => bs,
            _ => Seq::empty(),
        },
        WtModel::Optional(inner) => match v {
            ValueModel::Optional(o) => match o {
                Option::None => seq![0u8],
                Option::Some(b) => seq![1u8] + senc_value(*inner, *b),
            },
            _ => Seq::empty(),
        },
        WtModel::ListOf(inner) => match v {
            ValueModel::ListOf(vs) => varint_enc(vs.len() as i32) + senc_elems(*inner, vs),
            _ => Seq::empty(),
        },
        WtModel::Tagged(tm) => match v {
            ValueModel::Tagged { case, fields } => if case < tm.cases.len() {
                senc_value(*tm.disc, value_of_int(*tm.disc, tm.cases[case as int].disc))
                    + senc_fields(tm.cases[case as int].fields, fields)
            } else {
                Seq::empty()
            },
            _ => Seq::empty(),
        },
    }
}

/// Encodes list elements in order.
pub open spec fn senc_elems(t: WtModel, vs: Seq<ValueModel>) -> Seq<u8>
    decreases t, 1int, vs.len(),
{
    if vs.len() == 0 {
        Seq::empty()
    } else {
        senc_value(t, vs[0]) + senc_elems(t, vs.drop_first())
    }
}

/// Encodes one value per field, in declared order.
pub open spec fn senc_fields(fields: Seq<FieldModel>, vals: Seq<ValueModel>) -> Seq<u8>
    decreases fields, 0int, 0int,
{
    if fields.len() == 0 {
        Seq::empty()
    } else if vals.len() == 0 {
        Seq::empty()
    } else {
        senc_value(fields[0].ty, vals[0]) + senc_fields(fields.drop_first(), vals.drop_first())
    }
}

/// Whether every length the encoding must write fits its VarInt prefix.
pub open spec fn enc_lens_ok(t: WtModel, v: ValueModel) -> bool
    decreases t, 0int, 0int,
{
    match t {
        WtModel::Utf8 => match v {
            ValueModel::Utf8(cs) => encode_utf8(cs).len() < 0x8000_0000,
            _ => true,
        },
        WtModel::Optional(inner) => match v {
            ValueModel::Optional(o) => match o {
                Option::Some(b) => enc_lens_ok(*inner, *b),
                Option::None => true,
            },
            _ => true,
        },
        WtModel::ListOf(inner) => match v {
            ValueModel::ListOf(vs) => vs.len() < 0x8000_0000 && elems_lens_ok(*inner, vs),
            _ => true,
        },
        WtModel::Tagged(tm) => match v {
            ValueModel::Tagged { case, fields } => if case < tm.cases.len() {
                fields_lens_ok(tm.cases[case as int].fields, fields)
            } else {
                true
            },
            _ => true,
        },
        _ => true,
    }
}

/// Whether every element's lengths fit.
pub open spec fn elems_lens_ok(t: WtModel, vs: Seq<ValueModel>) -> bool
    decreases t, 1int, vs.len(),
{
    if vs.len() == 0 {
        true
    } else {
        enc_lens_ok(t, vs[0]) && elems_lens_ok(t, vs.drop_first())
    }
}

/// Whether every field value's lengths fit.
pub open spec fn fields_lens_ok(fields: Seq<FieldModel>, vals: Seq<ValueModel>) -> bool
    decreases fields, 0int, 0int,
{
    if fields.len() == 0 || vals.len() == 0 {
        true
    } else {
        enc_lens_ok(fields[0].ty, vals[0]) && fields_lens_ok(
            fields.drop_first(),
            vals.drop_first(),
        )
    }
}


/// Joins a decoded prefix onto the outcome of decoding what follows it.
pub open spec fn dec_prepend(vs0: Seq<ValueModel>, n0: nat, d: DecOut<Seq<ValueModel>>) -> DecOut<
    Seq<ValueModel>,
> {
    match d {
        DecOut::Good { v, n } => DecOut::Good { v: vs0 + v, n: n0 + n },
        b => b,
    }
}

/// A value sequence's model grows one model per appended value.
pub proof fn lemma_values_model_push(s: Seq<Value>, x: Value)
    ensures
        values_model(s.push(x)) == values_model(s).push(value_model(x)),
{
    lemma_values_model_index(s.push(x));
    lemma_values_model_index(s);
    assert(values_model(s.push(x)) =~= values_model(s).push(value_model(x)));
}

/// Relies on `String::from_utf8`: it succeeds exactly on valid UTF-8 input
/// and yields the string whose bytes are that input.
#[verifier::external_body]
fn bytes_to_string(v: Vec<u8>) -> (r: Option<String>)
    ensures
        r is Some <==> valid_utf8(v@),
        r matches Some(s) ==> s@ == decode_utf8(v@),
{
    match String::from_utf8(v) {
        Result::Ok(s) => Option::Some(s),
        Result::Err(_) => Option::None,
    }
}

/// Copies `count` bytes of `bytes` starting at `start` into a fresh vector.
fn copy_range(bytes: &Vec<u8>, start: usize, count: usize) -> (r: Vec<u8>)
    requires
        start + count <= bytes@.len(),
    ensures
        r@ == bytes@.subrange(start as int, start + count),
{
    let blen = bytes.len();
    let mut out: Vec<u8> = Vec::new();
    let mut i: usize = 0;
    proof {
        assert(out@ =~= bytes@.subrange(start as int, start as int));
    }
    while i < count
        invariant
            i <= count,
            start + count <= bytes@.len(),
            bytes@.len() <= usize::MAX,
            out@ == bytes@.subrange(start as int, start + i),
        decreases count - i,
    {
        out.push(bytes[start + i]);
        proof {
            assert(out@ =~= bytes@.subrange(start as int, start + i + 1));
        }
        i += 1;
    }
    out
}

/// The integer an in-memory discriminant-kind value denotes.
fn disc_int(v: &Value) -> (r: i32)
    ensures
        r as int == int_of(v@),
{
    match v {
        Value::U8(x) => *x as i32,
        Value::I8(x) => *x as i32,
        Value::U16(x) => *x as i32,
        Value::I16(x) => *x as i32,
        Value::I32(x) => *x,
        Value::VarInt(n) => *n,
        _ => 0,
    }
}

/// The index of the first case whose discriminant literal equals `d`.
fn find_case(cases: &Vec<VariantCase>, d: i32) -> (r: Option<usize>)
    ensures
        (match r {
            Option::Some(i) => case_index(cases_model(cases@), d as int) == i as int,
            Option::None => case_index(cases_model(cases@), d as int) < 0,
        }),
{
    let ghost cm = cases_model(cases@);
    proof {
        lemma_cases_model_index(cases@);
        lemma_case_index(cm, d as int);
    }
    let mut j: usize = 0;
    while j < cases.len()
        invariant
            j <= cases@.len(),
            cm == cases_model(cases@),
            cm.len() == cases@.len(),
            forall|i: int| 0 <= i < cases@.len() ==> cm[i].disc == cases@[i].disc,
            forall|i: int| 0 <= i < j ==> cm[i].disc != d,
            case_index(cm, d as int) >= 0 ==> cm[case_index(cm, d as int)].disc == d,
            case_index(cm, d as int) >= 0 ==> forall|i: int|
                0 <= i < case_index(cm, d as int) ==> cm[i].disc != d,
            case_index(cm, d as int) < 0 ==> forall|i: int|
                0 <= i < cm.len() ==> cm[i].disc != d,
        decreases cases@.len() - j,
    {
        if cases[j].disc == d {
            proof {
                let ci = case_index(cm, d as int);
                if ci < 0 {
                    assert(cm[j as int].disc != d);
                    assert(false);
                }
                if ci < j {
                    assert(cm[ci].disc != d);
                    assert(false);
                }
                if ci > j {
                    assert(cm[j as int].disc != d);
                    assert(false);
                }
            }
            return Option::Some(j);
        }
        j += 1;
    }
    proof {
        let ci = case_index(cm, d as int);
        if ci >= 0 {
            assert(cm[ci].disc != d);
            assert(false);
        }
    }
    Option::None
}

/// Decodes one value of an unparameterized wire type.
#[verifier::rlimit(100)]
fn decode_prim(t: &WireType, bytes: &Vec<u8>, pos: &mut usize, version: ProtocolVersion) -> (r:
    Result<Value, CodecError>)
    requires
        *old(pos) <= bytes@.len(),
        !(*t is Optional),
        !(*t is ListOf),
        !(*t is Tagged),
    ensures
        *old(pos) <= *final(pos) <= bytes@.len(),
        (match sdec_value(wt_model(*t), bytes@.skip(*old(pos) as int)) {
            DecOut::Good { v, n } => r matches Ok(val) && value_model(val) == v && *final(pos)
                == *old(pos) + n,
            DecOut::Bad { kind, trail } => r matches Err(e) && e.kind == kind && e.trail_model()
                == trail,
        }),
{
    let ghost s = bytes@.skip(*old(pos) as int);
    let ghost tm = wt_model(*t);
    match t {
        WireType::Bool => {
            if *pos >= bytes.len() {
                return Err(CodecError::new(ErrorKind::TruncatedInput));
            }
            let b = bytes[*pos];
            *pos += 1;
            Ok(Value::Bool(b != 0))
        },
        WireType::U8 => {
            if *pos >= bytes.len() {
                return Err(CodecError::new(ErrorKind::TruncatedInput));
            }
            let b = bytes[*pos];
            *pos += 1;
            Ok(Value::U8(b))
        },
        WireType::I8 => {
            if *pos >= bytes.len() {
                return Err(CodecError::new(ErrorKind::TruncatedInput));
            }
            let b = bytes[*pos];
            *pos += 1;
            proof {
                lemma_pow256_values();
            }
            Ok(Value::I8(u8_to_i8(b)))
        },
        WireType::Angle => {
            if *pos >= bytes.len() {
                return Err(CodecError::new(ErrorKind::TruncatedInput));
            }
            let b = bytes[*pos];
            *pos += 1;
            Ok(Value::Angle(b))
        },
        WireType::U16 => {
            match read_be(bytes, pos, 2, version) {
                Ok(x) => {
                    proof {
                        lemma_be_val_bound(s.subrange(0, 2));
                        lemma_pow256_values();
                        assert(s.subrange(0, 2) =~= bytes@.subrange(
                            *old(pos) as int,
                            *old(pos) + 2,
                        ));
                    }
                    Ok(Value::U16(x as u16))
                },
                Err(e) => Err(e),
            }
        },
        WireType::I16 => {
            match read_be(bytes, pos, 2, version) {
                Ok(x) => {
                    proof {
                        lemma_be_val_bound(s.subrange(0, 2));
                        lemma_pow256_values();
                        assert(s.subrange(0, 2) =~= bytes@.subrange(
                            *old(pos) as int,
                            *old(pos) + 2,
                        ));
                    }
                    Ok(Value::I16(u16_to_i16(x as u16)))
                },
                Err(e) => Err(e),
            }
        },
        WireType::I32 => {
            match read_be(bytes, pos, 4, version) {
                Ok(x) => {
                    proof {
                        lemma_be_val_bound(s.subrange(0, 4));
                        lemma_pow256_values();
                        lemma_pow256_mono(4, 8);
                        assert(s.subrange(0, 4) =~= bytes@.subrange(
                            *old(pos) as int,
                            *old(pos) + 4,
                        ));
                    }
                    let xu = x as u64;
                    let r64 = u64_to_i64(((xu as i64 - 0x8000_0000) + 0x8000_0000) as u64);
                    let v32: i32;
                    if x >= 0x8000_0000 {
                        v32 = ((x as i64) - 0x1_0000_0000) as i32;
                    } else {
                        v32 = x as i32;
                    }
                    Ok(Value::I32(v32))
                },
                Err(e) => Err(e),
            }
        },
        WireType::U64 => {
            match read_be(bytes, pos, 8, version) {
                Ok(x) => {
                    proof {
                        lemma_be_val_bound(s.subrange(0, 8));
                        lemma_pow256_values();
                        assert(s.subrange(0, 8) =~= bytes@.subrange(
                            *old(pos) as int,
                            *old(pos) + 8,
                        ));
                    }
                    Ok(Value::U64(x as u64))
                },
                Err(e) => Err(e),
            }
        },
        WireType::I64 => {
            match read_be(bytes, pos, 8, version) {
                Ok(x) => {
                    proof {
                        lemma_be_val_bound(s.subrange(0, 8));
                        lemma_pow256_values();
                        assert(s.subrange(0, 8) =~= bytes@.subrange(
                            *old(pos) as int,
                            *old(pos) + 8,
                        ));
                    }
                    Ok(Value::I64(u64_to_i64(x as u64)))
                },
                Err(e) => Err(e),
            }
        },
        WireType::F32Bits => {
            match read_be(bytes, pos, 4, version) {
                Ok(x) => {
                    proof {
                        lemma_be_val_bound(s.subrange(0, 4));
                        lemma_pow256_values();
                        lemma_pow256_mono(4, 8);
                        assert(s.subrange(0, 4) =~= bytes@.subrange(
                            *old(pos) as int,
                            *old(pos) + 4,
                        ));
                    }
                    Ok(Value::F32Bits(x as u32))
                },
                Err(e) => Err(e),
            }
        },
        WireType::F64Bits => {
            match read_be(bytes, pos, 8, version) {
                Ok(x) => {
                    proof {
                        lemma_be_val_bound(s.subrange(0, 8));
                        lemma_pow256_values();
                        assert(s.subrange(0, 8) =~= bytes@.subrange(
                            *old(pos) as int,
                            *old(pos) + 8,
                        ));
                    }
                    Ok(Value::F64Bits(x as u64))
                },
                Err(e) => Err(e),
            }
        },
        WireType::BlockPos => {
            match read_be(bytes, pos, 8, version) {
                Ok(x) => {
                    proof {
                        lemma_be_val_bound(s.subrange(0, 8));
                        lemma_pow256_values();
                        assert(s.subrange(0, 8) =~= bytes@.subrange(
                            *old(pos) as int,
                            *old(pos) + 8,
                        ));
                    }
                    Ok(Value::BlockPos(x as u64))
                },
                Err(e) => Err(e),
            }
        },
        WireType::UuidBits => {
            match read_be(bytes, pos, 16, version) {
                Ok(x) => {
                    proof {
                        lemma_be_val_bound(s.subrange(0, 16));
                        lemma_pow256_values();
                        assert(s.subrange(0, 16) =~= bytes@.subrange(
                            *old(pos) as int,
                            *old(pos) + 16,
                        ));
                    }
                    Ok(Value::UuidBits(x))
                },
                Err(e) => Err(e),
            }
        },
        WireType::VarInt => {
            match read_varint(bytes, pos, version) {
                Ok(v) => Ok(Value::VarInt(v)),
                Err(e) => {
                    proof {
                        assert(e.trail_model() =~= Seq::<TraceModel>::empty());
                    }
                    Err(e)
                },
            }
        },
        WireType::Utf8 => {
            let n = match read_varint(bytes, pos, version) {
                Ok(v) => v,
                Err(e) => {
                    proof {
                        assert(e.trail_model() =~= Seq::<TraceModel>::empty());
                    }
                    return Err(e);
                },
            };
            if n < 0 {
                return Err(CodecError::new(ErrorKind::TruncatedInput));
            }
            let count = n as usize;
            if bytes.len() - *pos < count {
                return Err(CodecError::new(ErrorKind::TruncatedInput));
            }
            let raw = copy_range(bytes, *pos, count);
            proof {
                let len = (*pos - *old(pos)) as int;
                assert(raw@ =~= s.subrange(len, len + count));
            }
            *pos += count;
            match bytes_to_string(raw) {
                Option::Some(st) => Ok(Value::Utf8(st)),
                Option::None => Err(CodecError::new(ErrorKind::InvalidUtf8)),
            }
        },
        WireType::Remainder => {
            let count = bytes.len() - *pos;
            let raw = copy_range(bytes, *pos, count);
            proof {
                assert(raw@ =~= s);
            }
            *pos += count;
            Ok(Value::Remainder(raw))
        },
        _ => {
            proof {
                assert(false);
            }
            Err(CodecError::new(ErrorKind::TruncatedInput))
        },
    }
}

/// Decodes one value of wire type `t` from `bytes` at `pos`, agreeing with
/// the mathematical decoder in value, consumption and failure.
#[verifier::rlimit(100)]
pub fn decode_value(t: &WireType, bytes: &Vec<u8>, pos: &mut usize, version: ProtocolVersion) -> (r:
    Result<Value, CodecError>)
    requires
        *old(pos) <= bytes@.len(),
    ensures
        *old(pos) <= *final(pos) <= bytes@.len(),
        (match sdec_value(wt_model(*t), bytes@.skip(*old(pos) as int)) {
            DecOut::Good { v, n } => r matches Ok(val) && value_model(val) == v && *final(pos)
                == *old(pos) + n,
            DecOut::Bad { kind, trail } => r matches Err(e) && e.kind == kind && e.trail_model()
                == trail,
        }),
    decreases wt_model(*t), 0int, 0int,
{
    let ghost s = bytes@.skip(*old(pos) as int);
    let ghost tm = wt_model(*t);
    match t {
        WireType::Optional(inner) => {
            if *pos >= bytes.len() {
                return Err(CodecError::new(ErrorKind::TruncatedInput));
            }
            let flag = bytes[*pos];
            *pos += 1;
            if flag == 0 {
                Ok(Value::Optional(Option::None))
            } else {
                proof {
                    assert(bytes@.skip(*old(pos) + 1) =~= s.drop_first());
                }
                match decode_value(inner, bytes, pos, version) {
                    Ok(v) => Ok(Value::Optional(Option::Some(Box::new(v)))),
                    Err(e) => Err(e),
                }
            }
        },
        WireType::ListOf(inner) => {
            let n = match read_varint(bytes, pos, version) {
                Ok(v) => v,
                Err(e) => {
                    proof {
                        assert(e.trail_model() =~= Seq::<TraceModel>::empty());
                    }
                    return Err(e);
                },
            };
            if n < 0 {
                return Err(CodecError::new(ErrorKind::TruncatedInput));
            }
            let count = n as usize;
            let ghost im = wt_model(**inner);
            let ghost len0 = (*pos - *old(pos)) as nat;
            let ghost slist = s.skip(len0 as int);
            proof {
                assert(slist =~= bytes@.skip(*pos as int));
            }
            let blen = bytes.len();
            let mut vals: Vec<Value> = Vec::new();
            let mut j: usize = 0;
            while j < count
                invariant
                    j <= count,
                    *old(pos) + len0 <= *pos <= bytes@.len(),
                    bytes@.len() <= usize::MAX,
                    s == bytes@.skip(*old(pos) as int),
                    slist == s.skip(len0 as int),
                    im == wt_model(**inner),
                    tm == wt_model(*t),
                    tm == (WtModel::ListOf(Box::new(im))),
                    values_model(vals@).len() == j,
                    (match sdec_value(tm, s) {
                        DecOut::Good { v, n } => (match sdec_elems(
                            im,
                            bytes@.skip(*pos as int),
                            (count - j) as nat,
                        ) {
                            DecOut::Good { v: vs, n: n2 } => v == ValueModel::ListOf(
                                values_model(vals@) + vs,
                            ) && n == (*pos - *old(pos)) + n2,
                            DecOut::Bad { .. } => false,
                        }),
                        DecOut::Bad { kind, trail } => (match sdec_elems(
                            im,
                            bytes@.skip(*pos as int),
                            (count - j) as nat,
                        ) {
                            DecOut::Good { .. } => false,
                            DecOut::Bad { kind: k2, trail: t2 } => kind == k2 && trail == t2,
                        }),
                    }),
                decreases count - j,
            {
                let ghost scur = bytes@.skip(*pos as int);
                let ghost pos_before = *pos;
                proof {
                    assert(decreases_to!(tm => im));
                }
                let ghost vals_before = vals@;
                match decode_value(inner, bytes, pos, version) {
                    Ok(v) => {
                        proof {
                            let dv = sdec_value(im, scur);
                            assert(dv is Good);
                            assert(bytes@.skip(*pos as int) =~= scur.skip(dv->Good_n as int));
                            lemma_values_model_push(vals_before, v);
                        }
                        vals.push(v);
                        j += 1;
                        proof {
                            let dv = sdec_value(im, scur);
                            let new_elems = sdec_elems(
                                im,
                                bytes@.skip(*pos as int),
                                (count - j) as nat,
                            );
                            assert(sdec_elems(im, scur, (count - (j - 1)) as nat)
                                == (match new_elems {
                                DecOut::Good { v: vs, n: n2 } => DecOut::Good::<Seq<ValueModel>> {
                                    v: seq![dv->Good_v] + vs,
                                    n: dv->Good_n + n2,
                                },
                                b => b,
                            }));
                            if new_elems is Good {
                                let vs = new_elems->Good_v;
                                assert(values_model(vals@) == values_model(vals_before).push(
                                    dv->Good_v,
                                ));
                                assert(values_model(vals_before) + (seq![dv->Good_v] + vs)
                                    =~= values_model(vals_before).push(dv->Good_v) + vs);
                            }
                        }
                    },
                    Err(e) => {
                        return Err(e);
                    },
                }
            }
            proof {
                assert(sdec_elems(im, bytes@.skip(*pos as int), 0) == (DecOut::Good::<
                    Seq<ValueModel>,
                > { v: Seq::empty(), n: 0 }));
                assert(values_model(vals@) + Seq::<ValueModel>::empty() =~= values_model(vals@));
            }
            Ok(Value::ListOf(vals))
        },
        WireType::Tagged(ts) => {
            let ghost tgm = (match tm {
                WtModel::Tagged(x) => x,
                _ => arbitrary(),
            });
            proof {
                assert(decreases_to!(tm => *tgm.disc));
            }
            let dv = match decode_value(&*ts.disc, bytes, pos, version) {
                Ok(v) => v,
                Err(mut e) => {
                    let empty_field = String::new();
                    e.annotate(&ts.name, &empty_field);
                    proof {
                        let inner_bad = sdec_value(*tgm.disc, s);
                        assert(e.trail_model() =~= inner_bad->Bad_trail.push(
                            (TraceModel { owner: ts.name@, field: Seq::empty() }),
                        ));
                    }
                    return Err(e);
                },
            };
            let ghost n1 = (*pos - *old(pos)) as nat;
            let d = disc_int(&dv);
            proof {
                lemma_cases_model_index(ts.cases@);
            }
            match find_case(&ts.cases, d) {
                Option::Some(idx) => {
                    proof {
                        lemma_case_index(tgm.cases, d as int);
                        assert(fields_model(ts.cases@[idx as int].fields@)
                            == tgm.cases[idx as int].fields);
                        assert(decreases_to!(tm => tgm.cases));
                        assert(decreases_to!(tgm.cases => tgm.cases[idx as int]));
                        assert(decreases_to!(tgm.cases[idx as int] => tgm.cases[
                            idx as int].fields));
                        assert(bytes@.skip(*pos as int) =~= s.skip(n1 as int));
                    }
                    match decode_fields(&ts.name, &ts.cases[idx].fields, bytes, pos, version) {
                        Ok(vals) => Ok(Value::Tagged { case: idx, fields: vals }),
                        Err(e) => Err(e),
                    }
                },
                Option::None => Err(CodecError::new(ErrorKind::UnknownVariant(d))),
            }
        },
        _ => decode_prim(t, bytes, pos, version),
    }
}

/// Decodes one value per field, in declared order, from `bytes` at `pos`,
/// annotating any failure with `owner` and the offending field's name.
pub fn decode_fields(
    owner: &String,
    fields: &Vec<FieldDescriptor>,
    bytes: &Vec<u8>,
    pos: &mut usize,
    version: ProtocolVersion,
) -> (r: Result<Vec<Value>, CodecError>)
    requires
        *old(pos) <= bytes@.len(),
    ensures
        *old(pos) <= *final(pos) <= bytes@.len(),
        (match sdec_fields(owner@, fields_model(fields@), bytes@.skip(*old(pos) as int)) {
            DecOut::Good { v, n } => r matches Ok(vals) && values_model(vals@) == v && *final(pos)
                == *old(pos) + n,
            DecOut::Bad { kind, trail } => r matches Err(e) && e.kind == kind && e.trail_model()
                == trail,
        }),
    decreases fields_model(fields@), 0int, 0int,
{
    let ghost s = bytes@.skip(*old(pos) as int);
    let ghost fm = fields_model(fields@);
    proof {
        lemma_fields_model_index(fields@);
        assert(fm.skip(0) =~= fm);
    }
    let blen = bytes.len();
    let mut vals: Vec<Value> = Vec::new();
    let mut j: usize = 0;
    while j < fields.len()
        invariant
            j <= fields@.len(),
            *old(pos) <= *pos <= bytes@.len(),
            bytes@.len() <= usize::MAX,
            s == bytes@.skip(*old(pos) as int),
            fm == fields_model(fields@),
            fm.len() == fields@.len(),
            forall|i: int|
                0 <= i < fields@.len() ==> fm[i] == (FieldModel {
                    name: fields@[i].name@,
                    ty: wt_model(fields@[i].ty),
                }),
            values_model(vals@).len() == j,
            (match sdec_fields(owner@, fm, s) {
                DecOut::Good { v, n } => (match sdec_fields(
                    owner@,
                    fm.skip(j as int),
                    bytes@.skip(*pos as int),
                ) {
                    DecOut::Good { v: vs, n: n2 } => v == values_model(vals@) + vs && n == (*pos
                        - *old(pos)) + n2,
                    DecOut::Bad { .. } => false,
                }),
                DecOut::Bad { kind, trail } => (match sdec_fields(
                    owner@,
                    fm.skip(j as int),
                    bytes@.skip(*pos as int),
                ) {
                    DecOut::Good { .. } => false,
                    DecOut::Bad { kind: k2, trail: t2 } => kind == k2 && trail == t2,
                }),
            }),
        decreases fields@.len() - j,
    {
        let ghost scur = bytes@.skip(*pos as int);
        proof {
            assert(fm.skip(j as int)[0] == fm[j as int]);
            assert(decreases_to!(fm => fm[j as int]));
        }
        let ghost vals_before = vals@;
        match decode_value(&fields[j].ty, bytes, pos, version) {
            Ok(v) => {
                proof {
                    let dv = sdec_value(fm[j as int].ty, scur);
                    assert(dv is Good);
                    assert(bytes@.skip(*pos as int) =~= scur.skip(dv->Good_n as int));
                    assert(fm.skip(j as int).drop_first() =~= fm.skip(j + 1));
                    lemma_values_model_push(vals_before, v);
                }
                vals.push(v);
                j += 1;
                proof {
                    let prev = fm.skip(j - 1);
                    let dv = sdec_value(fm[j - 1].ty, scur);
                    let new_out = sdec_fields(owner@, fm.skip(j as int), bytes@.skip(*pos as int));
                    assert(sdec_fields(owner@, prev, scur) == (match new_out {
                        DecOut::Good { v: vs, n: n2 } => DecOut::Good::<Seq<ValueModel>> {
                            v: seq![dv->Good_v] + vs,
                            n: dv->Good_n + n2,
                        },
                        b => b,
                    }));
                    if new_out is Good {
                        let vs = new_out->Good_v;
                        assert(values_model(vals@) == values_model(vals_before).push(dv->Good_v));
                        assert(values_model(vals_before) + (seq![dv->Good_v] + vs)
                            =~= values_model(vals_before).push(dv->Good_v) + vs);
                    }
                }
            },
            Err(mut e) => {
                e.annotate(owner, &fields[j].name);
                proof {
                    let dv = sdec_value(fm[j as int].ty, scur);
                    assert(e.trail_model() =~= dv->Bad_trail.push(
                        (TraceModel { owner: owner@, field: fm[j as int].name }),
                    ));
                }
                return Err(e);
            },
        }
    }
    proof {
        assert(fm.skip(fields@.len() as int).len() == 0);
        assert(values_model(vals@) + Seq::<ValueModel>::empty() =~= values_model(vals@));
    }
    Ok(vals)
}


/// Every case of a well-formed case sequence has well-formed fields.
pub proof fn lemma_cases_wf_index(cases: Seq<CaseModel>, i: int)
    requires
        cases_wf(cases),
        0 <= i < cases.len(),
    ensures
        fields_wf(cases[i].fields),
    decreases cases,
{
    if i > 0 {
        lemma_cases_wf_index(cases.drop_first(), i - 1);
    }
}

/// Appends a copy of `src` to `out`.
fn append_bytes(src: &Vec<u8>, out: &mut Vec<u8>)
    ensures
        final(out)@ == old(out)@ + src@,
{
    let mut i: usize = 0;
    proof {
        assert(out@ =~= old(out)@ + src@.subrange(0, 0));
    }
    while i < src.len()
        invariant
            i <= src@.len(),
            out@ == old(out)@ + src@.subrange(0, i as int),
        decreases src@.len() - i,
    {
        out.push(src[i]);
        proof {
            assert(out@ =~= old(out)@ + src@.subrange(0, i + 1));
        }
        i += 1;
    }
    proof {
        assert(src@.subrange(0, src@.len() as int) =~= src@);
    }
}

/// Builds the in-memory discriminant value for a discriminant kind.
fn make_disc(t: &WireType, d: i32) -> (r: Value)
    requires
        disc_kind(wt_model(*t)),
        disc_in_range(wt_model(*t), d),
    ensures
        value_model(r) == value_of_int(wt_model(*t), d),
        val_fits(wt_model(*t), value_model(r)),
        enc_lens_ok(wt_model(*t), value_model(r)),
{
    match t {
        WireType::U8 => Value::U8(d as u8),
        WireType::I8 => Value::I8(d as i8),
        WireType::U16 => Value::U16(d as u16),
        WireType::I16 => Value::I16(d as i16),
        WireType::I32 => Value::I32(d),
        _ => Value::VarInt(d),
    }
}

/// Encodes one value of an unparameterized wire type.
#[verifier::rlimit(100)]
fn encode_prim(t: &WireType, v: &Value, out: &mut Vec<u8>, version: ProtocolVersion) -> (r: Result<
    (),
    CodecError,
>)
    requires
        !(*t is Optional),
        !(*t is ListOf),
        !(*t is Tagged),
        val_fits(wt_model(*t), v@),
    ensures
        r is Ok <==> enc_lens_ok(wt_model(*t), v@),
        r is Ok ==> final(out)@ == old(out)@ + senc_value(wt_model(*t), v@),
        r matches Err(e) ==> e.kind == ErrorKind::OversizedValue,
{
    proof {
        lemma_pow256_values();
        lemma_pow256_mono(1, 16);
        lemma_pow256_mono(2, 16);
        lemma_pow256_mono(4, 16);
        lemma_pow256_mono(8, 16);
    }
    match (t, v) {
        (WireType::Bool, Value::Bool(b)) => {
            out.push(if *b { 1 } else { 0 });
            proof {
                assert(out@ =~= old(out)@ + senc_value(wt_model(*t), v@));
            }
            Ok(())
        },
        (WireType::U8, Value::U8(x)) => {
            write_be(*x as u128, 1, out, version);
            Ok(())
        },
        (WireType::I8, Value::I8(x)) => {
            write_be(i8_to_u8(*x) as u128, 1, out, version);
            Ok(())
        },
        (WireType::U16, Value::U16(x)) => {
            write_be(*x as u128, 2, out, version);
            Ok(())
        },
        (WireType::I16, Value::I16(x)) => {
            write_be(i16_to_u16(*x) as u128, 2, out, version);
            Ok(())
        },
        (WireType::I32, Value::I32(x)) => {
            let bits = i32_to_u32(*x);
            proof {
                assert(u32_of_i32(*x) == twos_of(*x as int, 4));
            }
            write_be(bits as u128, 4, out, version);
            Ok(())
        },
        (WireType::U64, Value::U64(x)) => {
            write_be(*x as u128, 8, out, version);
            Ok(())
        },
        (WireType::I64, Value::I64(x)) => {
            write_be(i64_to_u64(*x) as u128, 8, out, version);
            Ok(())
        },
        (WireType::F32Bits, Value::F32Bits(x)) => {
            write_be(*x as u128, 4, out, version);
            Ok(())
        },
        (WireType::F64Bits, Value::F64Bits(x)) => {
            write_be(*x as u128, 8, out, version);
            Ok(())
        },
        (WireType::Angle, Value::Angle(x)) => {
            write_be(*x as u128, 1, out, version);
            Ok(())
        },
        (WireType::UuidBits, Value::UuidBits(x)) => {
            write_be(*x, 16, out, version);
            Ok(())
        },
        (WireType::BlockPos, Value::BlockPos(x)) => {
            write_be(*x as u128, 8, out, version);
            Ok(())
        },
        (WireType::VarInt, Value::VarInt(n)) => {
            write_varint(*n, out, version);
            Ok(())
        },
        (WireType::Utf8, Value::Utf8(st)) => {
            let mut bs = st.as_str().as_bytes_vec();
            if bs.len() >= 0x8000_0000usize {
                return Err(CodecError::new(ErrorKind::OversizedValue));
            }
            write_varint(bs.len() as i32, out, version);
            out.append(&mut bs);
            Ok(())
        },
        (WireType::Remainder, Value::Remainder(raw)) => {
            append_bytes(raw, out);
            Ok(())
        },
        _ => {
            proof {
                assert(false);
            }
            Err(CodecError::new(ErrorKind::OversizedValue))
        },
    }
}

/// Encodes one value of wire type `t` onto `out`, agreeing byte for byte
/// with the mathematical encoder. The value must fit the type and the type
/// must be well formed; the one failure is a string or list whose length
/// does not fit its prefix.
#[verifier::rlimit(100)]
pub fn encode_value(t: &WireType, v: &Value, out: &mut Vec<u8>, version: ProtocolVersion) -> (r:
    Result<(), CodecError>)
    requires
        val_fits(wt_model(*t), v@),
        wt_wf(wt_model(*t)),
    ensures
        r is Ok <==> enc_lens_ok(wt_model(*t), v@),
        r is Ok ==> final(out)@ == old(out)@ + senc_value(wt_model(*t), v@),
        r matches Err(e) ==> e.kind == ErrorKind::OversizedValue,
    decreases wt_model(*t), 0int, 0int,
{
    let ghost tm = wt_model(*t);
    match t {
        WireType::Optional(inner) => {
            match v {
                Value::Optional(o) => match o {
                    Option::None => {
                        out.push(0);
                        proof {
                            assert(out@ =~= old(out)@ + senc_value(tm, v@));
                        }
                        Ok(())
                    },
                    Option::Some(b) => {
                        out.push(1);
                        let ghost mid = out@;
                        match encode_value(inner, b, out, version) {
                            Ok(()) => {
                                proof {
                                    assert(out@ =~= old(out)@ + (seq![1u8] + senc_value(
                                        wt_model(**inner),
                                        value_model(**b),
                                    )));
                                }
                                Ok(())
                            },
                            Err(e) => Err(e),
                        }
                    },
                },
                _ => {
                    proof {
                        assert(false);
                    }
                    Err(CodecError::new(ErrorKind::OversizedValue))
                },
            }
        },
        WireType::ListOf(inner) => {
            match v {
                Value::ListOf(elems) => {
                    let ghost im = wt_model(**inner);
                    let ghost vm = values_model(elems@);
                    proof {
                        lemma_values_model_index(elems@);
                        assert(vm.skip(0) =~= vm);
                    }
                    if elems.len() >= 0x8000_0000usize {
                        return Err(CodecError::new(ErrorKind::OversizedValue));
                    }
                    write_varint(elems.len() as i32, out, version);
                    let ghost base = out@;
                    let ghost mut taken = Seq::<u8>::empty();
                    proof {
                        assert(out@ =~= base + taken);
                    }
                    let mut j: usize = 0;
                    while j < elems.len()
                        invariant
                            j <= elems@.len(),
                            im == wt_model(**inner),
                            tm == wt_model(*t),
                            tm == (WtModel::ListOf(Box::new(im))),
                            wt_wf(im),
                            vm == values_model(elems@),
                            v@ == (ValueModel::ListOf(vm)),
                            vm.len() == elems@.len(),
                            forall|i: int| 0 <= i < elems@.len() ==> vm[i] == value_model(
                                elems@[i],
                            ),
                            elems_fit(im, vm),
                            out@ == base + taken,
                            senc_elems(im, vm) == taken + senc_elems(im, vm.skip(j as int)),
                            elems_lens_ok(im, vm) <==> elems_lens_ok(im, vm.skip(j as int)),
                        decreases elems@.len() - j,
                    {
                        proof {
                            lemma_elems_fit_index(im, vm, j as int);
                            assert(vm.skip(j as int)[0] == vm[j as int]);
                            assert(vm.skip(j as int).drop_first() =~= vm.skip(j + 1));
                            let bx = tm->ListOf_0;
                            assert(*bx == im);
                            assert(decreases_to!(tm => *bx));
                            assert(decreases_to!(tm => im));
                        }
                        match encode_value(inner, &elems[j], out, version) {
                            Ok(()) => {
                                proof {
                                    taken = taken + senc_value(im, vm[j as int]);
                                    assert(out@ =~= base + taken);
                                    assert(taken + (senc_value(im, vm[j as int]) + senc_elems(
                                        im,
                                        vm.skip(j + 1),
                                    )) =~= (taken + senc_value(im, vm[j as int])) + senc_elems(
                                        im,
                                        vm.skip(j + 1),
                                    ));
                                }
                                j += 1;
                            },
                            Err(e) => {
                                proof {
                                    assert(!elems_lens_ok(im, vm.skip(j as int)));
                                }
                                return Err(e);
                            },
                        }
                    }
                    proof {
                        assert(vm.skip(vm.len() as int).len() == 0);
                        assert(taken + Seq::<u8>::empty() =~= taken);
                        assert(out@ =~= old(out)@ + senc_value(tm, v@));
                    }
                    Ok(())
                },
                _ => {
                    proof {
                        assert(false);
                    }
                    Err(CodecError::new(ErrorKind::OversizedValue))
                },
            }
        },
        WireType::Tagged(ts) => {
            match v {
                Value::Tagged { case, fields: vfields } => {
                    let ghost tgm = (match tm {
                        WtModel::Tagged(x) => x,
                        _ => arbitrary(),
                    });
                    proof {
                        lemma_cases_model_index(ts.cases@);
                    }
                    let idx = *case;
                    let dv = make_disc(&ts.disc, ts.cases[idx].disc);
                    proof {
                        assert(decreases_to!(tm => *tgm.disc));
                    }
                    match encode_value(&ts.disc, &dv, out, version) {
                        Ok(()) => {},
                        Err(e) => {
                            proof {
                                assert(false);
                            }
                            return Err(e);
                        },
                    }
                    proof {
                        lemma_cases_wf_index(tgm.cases, idx as int);
                        assert(fields_model(ts.cases@[idx as int].fields@) == tgm.cases[
                            idx as int].fields);
                        assert(decreases_to!(tm => tgm.cases));
                        assert(decreases_to!(tgm.cases => tgm.cases[idx as int]));
                        assert(decreases_to!(tgm.cases[idx as int] => tgm.cases[
                            idx as int].fields));
                    }
                    match encode_fields(&ts.cases[idx].fields, vfields, out, version) {
                        Ok(()) => {
                            proof {
                                assert(out@ =~= old(out)@ + senc_value(tm, v@));
                            }
                            Ok(())
                        },
                        Err(e) => Err(e),
                    }
                },
                _ => {
                    proof {
                        assert(false);
                    }
                    Err(CodecError::new(ErrorKind::OversizedValue))
                },
            }
        },
        _ => encode_prim(t, v, out, version),
    }
}

/// Every element of a fitting list fits the inner type.
pub proof fn lemma_elems_fit_index(t: WtModel, vs: Seq<ValueModel>, i: int)
    requires
        elems_fit(t, vs),
        0 <= i < vs.len(),
    ensures
        val_fits(t, vs[i]),
    decreases i,
{
    if i > 0 {
        lemma_elems_fit_index(t, vs.drop_first(), i - 1);
    }
}

/// Encodes one value per field, in declared order, onto `out`.
#[verifier::rlimit(100)]
pub fn encode_fields(
    fields: &Vec<FieldDescriptor>,
    vals: &Vec<Value>,
    out: &mut Vec<u8>,
    version: ProtocolVersion,
) -> (r: Result<(), CodecError>)
    requires
        fields_fit(fields_model(fields@), values_model(vals@)),
        fields_wf(fields_model(fields@)),
    ensures
        r is Ok <==> fields_lens_ok(fields_model(fields@), values_model(vals@)),
        r is Ok ==> final(out)@ == old(out)@ + senc_fields(
            fields_model(fields@),
            values_model(vals@),
        ),
        r matches Err(e) ==> e.kind == ErrorKind::OversizedValue,
    decreases fields_model(fields@), 0int, 0int,
{
    let ghost fm = fields_model(fields@);
    let ghost vm = values_model(vals@);
    proof {
        lemma_fields_model_index(fields@);
        lemma_values_model_index(vals@);
        lemma_fields_fit_len(fm, vm);
        assert(fm.skip(0) =~= fm);
        assert(vm.skip(0) =~= vm);
    }
    let ghost base = out@;
    let ghost mut taken = Seq::<u8>::empty();
    proof {
        assert(out@ =~= base + taken);
    }
    let mut j: usize = 0;
    while j < fields.len()
        invariant
            j <= fields@.len(),
            fm == fields_model(fields@),
            vm == values_model(vals@),
            fm.len() == fields@.len(),
            vm.len() == vals@.len(),
            vals@.len() == fields@.len(),
            forall|i: int| 0 <= i < vals@.len() ==> vm[i] == value_model(vals@[i]),
            forall|i: int|
                0 <= i < fields@.len() ==> fm[i] == (FieldModel {
                    name: fields@[i].name@,
                    ty: wt_model(fields@[i].ty),
                }),
            fields_fit(fm.skip(j as int), vm.skip(j as int)),
            fields_wf(fm.skip(j as int)),
            out@ == base + taken,
            base == old(out)@,
            senc_fields(fm, vm) == taken + senc_fields(fm.skip(j as int), vm.skip(j as int)),
            fields_lens_ok(fm, vm) <==> fields_lens_ok(fm.skip(j as int), vm.skip(j as int)),
        decreases fields@.len() - j,
    {
        proof {
            assert(fm.skip(j as int)[0] == fm[j as int]);
            assert(vm.skip(j as int)[0] == vm[j as int]);
            assert(fm.skip(j as int).drop_first() =~= fm.skip(j + 1));
            assert(vm.skip(j as int).drop_first() =~= vm.skip(j + 1));
            assert(decreases_to!(fm => fm[j as int]));
        }
        match encode_value(&fields[j].ty, &vals[j], out, version) {
            Ok(()) => {
                proof {
                    taken = taken + senc_value(fm[j as int].ty, vm[j as int]);
                    assert(out@ =~= base + taken);
                    assert(taken + (senc_value(fm[j as int].ty, vm[j as int]) + senc_fields(
                        fm.skip(j + 1),
                        vm.skip(j + 1),
                    )) =~= (taken + senc_value(fm[j as int].ty, vm[j as int])) + senc_fields(
                        fm.skip(j + 1),
                        vm.skip(j + 1),
                    ));
                }
                j += 1;
            },
            Err(e) => {
                proof {
                    assert(!fields_lens_ok(fm.skip(j as int), vm.skip(j as int)));
                }
                return Err(e);
            },
        }
    }
    proof {
        assert(fm.skip(fm.len() as int).len() == 0);
        assert(taken + Seq::<u8>::empty() =~= taken);
    }
    Ok(())
}

} // verus!
