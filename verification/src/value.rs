//! Decoded field values.
//!
//! A value is the in-memory form of one wire-typed field. A decoded packet or
//! variant holds exactly one value per declared field, in declared order; a
//! tagged value holds the index of its matched case and that case's fields,
//! never a union of several.

use vstd::prelude::*;

use crate::schema::{fields_model, CaseModel, FieldModel, WtModel};

verus! {

/// The in-memory form of one wire-typed value.
#[derive(Debug)]
pub enum Value {
    Bool(bool),
    U8(u8),
    I8(i8),
    U16(u16),
    I16(i16),
    I32(i32),
    U64(u64),
    I64(i64),
    /// The bit pattern of a single-precision float.
    F32Bits(u32),
    /// The bit pattern of a double-precision float.
    F64Bits(u64),
    /// A rotation in 256ths of a full turn.
    Angle(u8),
    /// A UUID as its 128-bit value.
    UuidBits(u128),
    /// A block position in its packed 64-bit wire form.
    BlockPos(u64),
    VarInt(i32),
    Utf8(String),
    /// The raw trailing bytes of the read scope.
    Remainder(Vec<u8>),
    Optional(Option<Box<Value>>),
    ListOf(Vec<Value>),
    /// A tagged variant: the index of the matched case in its schema, and
    /// that case's field values in declared order.
    Tagged { case: usize, fields: Vec<Value> },
}

/// The mathematical model of a [`Value`].
pub ghost enum ValueModel {
    Bool(bool),
    U8(u8),
    I8(i8),
    U16(u16),
    I16(i16),
    I32(i32),
    U64(u64),
    I64(i64),
    F32Bits(u32),
    F64Bits(u64),
    Angle(u8),
    UuidBits(u128),
    BlockPos(u64),
    VarInt(i32),
    Utf8(Seq<char>),
    Remainder(Seq<u8>),
    Optional(Option<Box<ValueModel>>),
    ListOf(Seq<ValueModel>),
    Tagged { case: nat, fields: Seq<ValueModel> },
}

/// The model of a value.
pub open spec fn value_model(v: Value) -> ValueModel
    decreases v,
{
    match v {
        Value::Bool(b) => ValueModel::Bool(b),
        Value::U8(x) => ValueModel::U8(x),
        Value::I8(x) => ValueModel::I8(x),
        Value::U16(x) => ValueModel::U16(x),
        Value::I16(x) => ValueModel::I16(x),
        Value::I32(x) => ValueModel::I32(x),
        Value::U64(x) => ValueModel::U64(x),
        Value::I64(x) => ValueModel::I64(x),
        Value::F32Bits(x) => ValueModel::F32Bits(x),
        Value::F64Bits(x) => ValueModel::F64Bits(x),
        Value::Angle(x) => ValueModel::Angle(x),
        Value::UuidBits(x) => ValueModel::UuidBits(x),
        Value::BlockPos(x) => ValueModel::BlockPos(x),
        Value::VarInt(n) => ValueModel::VarInt(n),
        Value::Utf8(s) => ValueModel::Utf8(s@),
        Value::Remainder(b) => ValueModel::Remainder(b@),
        Value::Optional(o) => ValueModel::Optional(
            match o {
                Option::Some(inner) => Option::Some(Box::new(value_model(*inner))),
                Option::None => Option::None,
            },
        ),
        Value::ListOf(vs) => ValueModel::ListOf(values_model(vs@)),
        Value::Tagged { case, fields } => ValueModel::Tagged {
            case: case as nat,
            fields: values_model(fields@),
        },
    }
}

/// The model of a value sequence.
pub open spec fn values_model(s: Seq<Value>) -> Seq<ValueModel>
    decreases s,
{
    if s.len() == 0 {
        Seq::empty()
    } else {
        seq![value_model(s[0])] + values_model(s.drop_first())
    }
}

impl View for Value {
    type V = ValueModel;

    open spec fn view(&self) -> ValueModel {
        value_model(*self)
    }
}

/// The model of a value sequence has the sequence's length, and its entries
/// are the entries' models.
pub proof fn lemma_values_model_index(s: Seq<Value>)
    ensures
        values_model(s).len() == s.len(),
        forall|i: int| 0 <= i < s.len() ==> values_model(s)[i] == value_model(s[i]),
    decreases s,
{
    if s.len() > 0 {
        lemma_values_model_index(s.drop_first());
    }
}

/// Whether a value has the shape its wire type declares. This is the dynamic
/// counterpart of the static field typing a compiled packet struct would
/// enjoy: schema and value shape must agree before encoding.
pub open spec fn val_fits(t: WtModel, v: ValueModel) -> bool
    decreases t, 0int, 0int,
{
    match t {
        WtModel::Bool => v is Bool,
        WtModel::U8 => v is U8,
        WtModel::I8 => v is I8,
        WtModel::U16 => v is U16,
        WtModel::I16 => v is I16,
        WtModel::I32 => v is I32,
        WtModel::U64 => v is U64,
        WtModel::I64 => v is I64,
        WtModel::F32Bits => v is F32Bits,
        WtModel::F64Bits => v is F64Bits,
        WtModel::Angle => v is Angle,
        WtModel::UuidBits => v is UuidBits,
        WtModel::BlockPos => v is BlockPos,
        WtModel::VarInt => v is VarInt,
        WtModel::Utf8 => v is Utf8,
        WtModel::Remainder => v is Remainder,
        WtModel::Optional(inner) => match v {
            ValueModel::Optional(o) => match o {
                Option::Some(b) => val_fits(*inner, *b),
                Option::None => true,
            },
            _ => false,
        },
        WtModel::ListOf(inner) => match v {
            ValueModel::ListOf(vs) => elems_fit(*inner, vs),
            _ => false,
        },
        WtModel::Tagged(tm) => match v {
            ValueModel::Tagged { case, fields } => case < tm.cases.len() && fields_fit(
                tm.cases[case as int].fields,
                fields,
            ),
            _ => false,
        },
    }
}

/// Whether every element of a list fits the inner wire type.
pub open spec fn elems_fit(t: WtModel, vs: Seq<ValueModel>) -> bool
    decreases t, 1int, vs.len(),
{
    if vs.len() == 0 {
        true
    } else {
        val_fits(t, vs[0]) && elems_fit(t, vs.drop_first())
    }
}

/// Whether a value sequence fits a field list, one value per field in order.
pub open spec fn fields_fit(fields: Seq<FieldModel>, vals: Seq<ValueModel>) -> bool
    decreases fields, 0int, 0int,
{
    if fields.len() == 0 {
        vals.len() == 0
    } else {
        &&& vals.len() > 0
        &&& val_fits(fields[0].ty, vals[0])
        &&& fields_fit(fields.drop_first(), vals.drop_first())
    }
}

/// A fitting value sequence has one value per field.
pub proof fn lemma_fields_fit_len(fields: Seq<FieldModel>, vals: Seq<ValueModel>)
    requires
        fields_fit(fields, vals),
    ensures
        vals.len() == fields.len(),
        forall|i: int| 0 <= i < fields.len() ==> val_fits(#[trigger] fields[i].ty, vals[i]),
    decreases fields.len(),
{
    if fields.len() > 0 {
        lemma_fields_fit_len(fields.drop_first(), vals.drop_first());
        assert forall|i: int| 0 <= i < fields.len() implies val_fits(
            #[trigger] fields[i].ty,
            vals[i],
        ) by {
            if i > 0 {
                assert(val_fits(fields.drop_first()[i - 1].ty, vals.drop_first()[i - 1]));
            }
        }
    }
}

/// The integer a discriminant-kind value denotes.
pub open spec fn int_of(v: ValueModel) -> int {
    match v {
        ValueModel::U8(x) => x as int,
        ValueModel::I8(x) => x as int,
        ValueModel::U16(x) => x as int,
        ValueModel::I16(x) => x as int,
        ValueModel::I32(x) => x as int,
        ValueModel::VarInt(n) => n as int,
        _ => 0,
    }
}

/// The discriminant-kind value denoting an integer.
pub open spec fn value_of_int(t: WtModel, d: i32) -> ValueModel {
    match t {
        WtModel::U8 => ValueModel::U8(d as u8),
        WtModel::I8 => ValueModel::I8(d as i8),
        WtModel::U16 => ValueModel::U16(d as u16),
        WtModel::I16 => ValueModel::I16(d as i16),
        WtModel::I32 => ValueModel::I32(d),
        _ => ValueModel::VarInt(d),
    }
}

} // verus!
