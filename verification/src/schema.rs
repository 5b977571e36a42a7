//! Packet and variant schemas as plain data.
//!
//! A wire type names one encode/decode behaviour; a field descriptor pairs a
//! field name with its wire type; a packet schema is an ordered field list
//! plus a type name, and its declared order is the wire order. A tagged
//! schema adds a discriminant wire type and a set of variant cases whose
//! discriminant literals must be unique. All schema data is built once and
//! never mutated afterwards.

use vstd::prelude::*;

verus! {

/// A wire type: the fixed mapping between a semantic type and its wire
/// representation. Parameterized wire types nest freely.
pub enum WireType {
    /// One byte; decodes any nonzero byte as true, encodes true as `0x01`.
    Bool,
    /// One unsigned byte.
    U8,
    /// One signed (two's-complement) byte.
    I8,
    /// Two-byte big-endian unsigned integer.
    U16,
    /// Two-byte big-endian signed integer.
    I16,
    /// Four-byte big-endian signed integer.
    I32,
    /// Eight-byte big-endian unsigned integer.
    U64,
    /// Eight-byte big-endian signed integer.
    I64,
    /// The four-byte bit pattern of a single-precision float.
    F32Bits,
    /// The eight-byte bit pattern of a double-precision float.
    F64Bits,
    /// One byte holding a fraction of a full turn, 256 units per turn.
    Angle,
    /// Sixteen-byte big-endian UUID.
    UuidBits,
    /// Eight bytes holding a packed block position.
    BlockPos,
    /// Variable-length 32-bit signed integer.
    VarInt,
    /// A VarInt byte-length prefix followed by that many UTF-8 bytes.
    Utf8,
    /// All bytes remaining in the current read scope; no length prefix.
    /// Valid only as the final field of a packet.
    Remainder,
    /// A one-byte presence flag, then the inner value when present.
    Optional(Box<WireType>),
    /// A VarInt element count followed by that many inner values.
    ListOf(Box<WireType>),
    /// A discriminant followed by the matched variant's fields.
    Tagged(TaggedSchema),
}

/// The schema of a tagged variant type.
pub struct TaggedSchema {
    /// The variant type's name, used to annotate failures.
    pub name: String,
    /// The wire type of the discriminant; must be an integer kind.
    pub disc: Box<WireType>,
    /// The variant cases; discriminant literals must be unique.
    pub cases: Vec<VariantCase>,
}

/// One case of a tagged variant type.
pub struct VariantCase {
    /// The discriminant literal selecting this case.
    pub disc: i32,
    /// The case's name, used to annotate failures.
    pub name: String,
    /// The case's fields, in wire order; may be empty.
    pub fields: Vec<FieldDescriptor>,
}

/// One field of a packet or variant case: a name and a wire type.
pub struct FieldDescriptor {
    pub name: String,
    pub ty: WireType,
}

/// A packet type's schema: its name and ordered field list. The in-memory
/// shape and the wire layout are both read from this one description, so the
/// two cannot diverge.
pub struct PacketSchema {
    pub name: String,
    pub fields: Vec<FieldDescriptor>,
}

/// The mathematical model of a [`WireType`].
pub ghost enum WtModel {
    Bool,
    U8,
    I8,
    U16,
    I16,
    I32,
    U64,
    I64,
    F32Bits,
    F64Bits,
    Angle,
    UuidBits,
    BlockPos,
    VarInt,
    Utf8,
    Remainder,
    Optional(Box<WtModel>),
    ListOf(Box<WtModel>),
    Tagged(TaggedModel),
}

/// The mathematical model of a [`TaggedSchema`].
pub ghost struct TaggedModel {
    pub name: Seq<char>,
    pub disc: Box<WtModel>,
    pub cases: Seq<CaseModel>,
}

/// The mathematical model of a [`VariantCase`].
pub ghost struct CaseModel {
    pub disc: i32,
    pub name: Seq<char>,
    pub fields: Seq<FieldModel>,
}

/// The mathematical model of a [`FieldDescriptor`].
pub ghost struct FieldModel {
    pub name: Seq<char>,
    pub ty: WtModel,
}

/// The mathematical model of a [`PacketSchema`].
pub ghost struct SchemaModel {
    pub name: Seq<char>,
    pub fields: Seq<FieldModel>,
}

/// The model of a wire type.
pub open spec fn wt_model(t: WireType) -> WtModel
    decreases t,
{
    match t {
        WireType::Bool => WtModel::Bool,
        WireType::U8 => WtModel::U8,
        WireType::I8 => WtModel::I8,
        WireType::U16 => WtModel::U16,
        WireType::I16 => WtModel::I16,
        WireType::I32 => WtModel::I32,
        WireType::U64 => WtModel::U64,
        WireType::I64 => WtModel::I64,
        WireType::F32Bits => WtModel::F32Bits,
        WireType::F64Bits => WtModel::F64Bits,
        WireType::Angle => WtModel::Angle,
        WireType::UuidBits => WtModel::UuidBits,
        WireType::BlockPos => WtModel::BlockPos,
        WireType::VarInt => WtModel::VarInt,
        WireType::Utf8 => WtModel::Utf8,
        WireType::Remainder => WtModel::Remainder,
        WireType::Optional(inner) => WtModel::Optional(Box::new(wt_model(*inner))),
        WireType::ListOf(inner) => WtModel::ListOf(Box::new(wt_model(*inner))),
        WireType::Tagged(ts) => WtModel::Tagged(
            (TaggedModel {
                name: ts.name@,
                disc: Box::new(wt_model(*ts.disc)),
                cases: cases_model(ts.cases@),
            }),
        ),
    }
}

/// The model of a case sequence.
pub open spec fn cases_model(s: Seq<VariantCase>) -> Seq<CaseModel>
    decreases s,
{
    if s.len() == 0 {
        Seq::empty()
    } else {
        seq![
            (CaseModel { disc: s[0].disc, name: s[0].name@, fields: fields_model(s[0].fields@) }),
        ] + cases_model(s.drop_first())
    }
}

/// The model of a field sequence.
pub open spec fn fields_model(s: Seq<FieldDescriptor>) -> Seq<FieldModel>
    decreases s,
{
    if s.len() == 0 {
        Seq::empty()
    } else {
        seq![(FieldModel { name: s[0].name@, ty: wt_model(s[0].ty) })] + fields_model(
            s.drop_first(),
        )
    }
}

impl View for PacketSchema {
    type V = SchemaModel;

    open spec fn view(&self) -> SchemaModel {
        (SchemaModel { name: self.name@, fields: fields_model(self.fields@) })
    }
}

/// The model of a field sequence has the sequence's length, and its entries
/// are the entries' models.
pub proof fn lemma_fields_model_index(s: Seq<FieldDescriptor>)
    ensures
        fields_model(s).len() == s.len(),
        forall|i: int|
            0 <= i < s.len() ==> fields_model(s)[i] == (FieldModel {
                name: s[i].name@,
                ty: wt_model(s[i].ty),
            }),
    decreases s,
{
    if s.len() > 0 {
        lemma_fields_model_index(s.drop_first());
    }
}

/// The model of a case sequence has the sequence's length, and its entries
/// are the entries' models.
pub proof fn lemma_cases_model_index(s: Seq<VariantCase>)
    ensures
        cases_model(s).len() == s.len(),
        forall|i: int|
            0 <= i < s.len() ==> cases_model(s)[i] == (CaseModel {
                disc: s[i].disc,
                name: s[i].name@,
                fields: fields_model(s[i].fields@),
            }),
    decreases s,
{
    if s.len() > 0 {
        lemma_cases_model_index(s.drop_first());
    }
}

/// Whether a wire type may carry a discriminant: an integer kind.
pub open spec fn disc_kind(t: WtModel) -> bool {
    ||| t is U8
    ||| t is I8
    ||| t is U16
    ||| t is I16
    ||| t is I32
    ||| t is VarInt
}

/// Whether a discriminant literal is representable in a discriminant kind.
pub open spec fn disc_in_range(t: WtModel, d: i32) -> bool {
    match t {
        WtModel::U8 => 0 <= d < 0x100,
        WtModel::I8 => -0x80 <= d < 0x80,
        WtModel::U16 => 0 <= d < 0x1_0000,
        WtModel::I16 => -0x8000 <= d < 0x8000,
        _ => true,
    }
}

/// Contains no remainder type anywhere: every value has a definite width.
pub open spec fn wt_closed(t: WtModel) -> bool
    decreases t,
{
    match t {
        WtModel::Remainder => false,
        WtModel::Optional(inner) => wt_closed(*inner),
        WtModel::ListOf(inner) => wt_closed(*inner),
        WtModel::Tagged(tm) => wt_closed(*tm.disc) && cases_closed(tm.cases),
        _ => true,
    }
}

/// Every case's fields are closed.
pub open spec fn cases_closed(cases: Seq<CaseModel>) -> bool
    decreases cases,
{
    if cases.len() == 0 {
        true
    } else {
        fields_closed(cases[0].fields) && cases_closed(cases.drop_first())
    }
}

/// Every field's type is closed.
pub open spec fn fields_closed(fields: Seq<FieldModel>) -> bool
    decreases fields,
{
    if fields.len() == 0 {
        true
    } else {
        wt_closed(fields[0].ty) && fields_closed(fields.drop_first())
    }
}

/// Well-formedness of a wire type: every nested tagged schema has an integer
/// discriminant kind, every case literal is representable in it, and the
/// literals are unique, so that the literal-to-case lookup is bijective.
pub open spec fn wt_wf(t: WtModel) -> bool
    decreases t,
{
    match t {
        WtModel::Optional(inner) => wt_wf(*inner),
        WtModel::ListOf(inner) => wt_wf(*inner),
        WtModel::Tagged(tm) => {
            &&& disc_kind(*tm.disc)
            &&& (forall|i: int, j: int|
                0 <= i < j < tm.cases.len() ==> tm.cases[i].disc != tm.cases[j].disc)
            &&& (forall|i: int|
                0 <= i < tm.cases.len() ==> disc_in_range(*tm.disc, tm.cases[i].disc))
            &&& cases_wf(tm.cases)
        },
        _ => true,
    }
}

/// Every case's fields are well formed.
pub open spec fn cases_wf(cases: Seq<CaseModel>) -> bool
    decreases cases,
{
    if cases.len() == 0 {
        true
    } else {
        fields_wf(cases[0].fields) && cases_wf(cases.drop_first())
    }
}

/// Every field's type is well formed.
pub open spec fn fields_wf(fields: Seq<FieldModel>) -> bool
    decreases fields,
{
    if fields.len() == 0 {
        true
    } else {
        wt_wf(fields[0].ty) && fields_wf(fields.drop_first())
    }
}

/// Well-formedness of a packet schema: its fields are well formed, and every
/// field is closed except that the last may be the remainder type, which
/// consumes the rest of the read scope.
pub open spec fn schema_wf(s: SchemaModel) -> bool {
    &&& fields_wf(s.fields)
    &&& (forall|i: int|
        0 <= i < s.fields.len() ==> (wt_closed(#[trigger] s.fields[i].ty) || (i == s.fields.len()
            - 1 && s.fields[i].ty is Remainder)))
}

} // verus!
