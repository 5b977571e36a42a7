//! The packet registry: a closed set of (numeric identifier, packet schema)
//! bindings for one traffic direction of one protocol phase.
//!
//! Decoding reads a VarInt identifier, looks it up, and runs the bound
//! schema's field codec; an unbound identifier fails with exactly that
//! identifier and reads nothing past it. Encoding writes the identifier
//! bound to the envelope's packet and then its fields. Identifiers are
//! unique within one registry, so the identifier mapping round-trips.

use vstd::prelude::*;

use crate::codec::{
    decode_fields, encode_fields, fields_lens_ok, sdec_fields, senc_fields, DecOut,
};
use crate::error::{CodecError, ErrorKind};
use crate::laws::{lemma_fields_roundtrip, lemma_sdec_fields_bound};
use crate::schema::{
    fields_closed, fields_model, fields_wf, schema_wf, PacketSchema, SchemaModel, WtModel,
};
use crate::value::{fields_fit, values_model, Value, ValueModel};
use crate::varint::{
    lemma_scan_bound, lemma_varint_roundtrip, read_varint, u32_of_i32, varint_dec, varint_enc,
    varint_value, write_varint, VarIntScan,
};
use crate::version::ProtocolVersion;

verus! {

/// One registry entry: a numeric identifier bound to a packet schema.
pub struct PacketBinding {
    pub id: i32,
    pub schema: PacketSchema,
}

/// The mathematical model of a [`PacketBinding`].
pub ghost struct BindingModel {
    pub id: i32,
    pub schema: SchemaModel,
}

/// A packet registry for one direction of one protocol phase.
pub struct PacketRegistry {
    pub bindings: Vec<PacketBinding>,
}

/// The mathematical model of a [`PacketRegistry`].
pub ghost struct RegistryModel {
    pub bindings: Seq<BindingModel>,
}

/// The model of a binding sequence.
pub open spec fn bindings_model(s: Seq<PacketBinding>) -> Seq<BindingModel>
    decreases s,
{
    if s.len() == 0 {
        Seq::empty()
    } else {
        seq![(BindingModel { id: s[0].id, schema: s[0].schema@ })] + bindings_model(s.drop_first())
    }
}

/// The model of a binding sequence has the sequence's length, and its entries
/// are the entries' models.
pub proof fn lemma_bindings_model_index(s: Seq<PacketBinding>)
    ensures
        bindings_model(s).len() == s.len(),
        forall|i: int|
            0 <= i < s.len() ==> bindings_model(s)[i] == (BindingModel {
                id: s[i].id,
                schema: s[i].schema@,
            }),
    decreases s,
{
    if s.len() > 0 {
        lemma_bindings_model_index(s.drop_first());
    }
}

impl View for PacketRegistry {
    type V = RegistryModel;

    open spec fn view(&self) -> RegistryModel {
        (RegistryModel { bindings: bindings_model(self.bindings@) })
    }
}

/// A decoded packet retaining its identity: the index of its binding in the
/// registry, and one value per schema field in declared order.
#[derive(Debug)]
pub struct Envelope {
    pub packet: usize,
    pub fields: Vec<Value>,
}

/// The mathematical model of an [`Envelope`].
pub ghost struct EnvelopeModel {
    pub packet: nat,
    pub fields: Seq<ValueModel>,
}

impl View for Envelope {
    type V = EnvelopeModel;

    open spec fn view(&self) -> EnvelopeModel {
        (EnvelopeModel { packet: self.packet as nat, fields: values_model(self.fields@) })
    }
}

/// The index of the first binding with identifier `id`, or -1.
pub open spec fn binding_index(bs: Seq<BindingModel>, id: int) -> int
    decreases bs,
{
    if bs.len() == 0 {
        -1
    } else if bs[0].id == id {
        0
    } else {
        let r = binding_index(bs.drop_first(), id);
        if r < 0 {
            -1
        } else {
            r + 1
        }
    }
}

/// A found binding index is in range, matches, and is the first match; a
/// miss means no binding matches.
pub proof fn lemma_binding_index(bs: Seq<BindingModel>, id: int)
    ensures
        binding_index(bs, id) >= 0 ==> 0 <= binding_index(bs, id) < bs.len() && bs[binding_index(
            bs,
            id,
        )].id == id,
        binding_index(bs, id) >= 0 ==> forall|i: int|
            0 <= i < binding_index(bs, id) ==> bs[i].id != id,
        binding_index(bs, id) < 0 ==> forall|i: int| 0 <= i < bs.len() ==> bs[i].id != id,
    decreases bs,
{
    if bs.len() > 0 {
        lemma_binding_index(bs.drop_first(), id);
        if binding_index(bs, id) < 0 {
            assert forall|i: int| 0 <= i < bs.len() implies bs[i].id != id by {
                if i > 0 {
                    assert(bs.drop_first()[i - 1].id != id);
                }
            }
        } else {
            assert forall|i: int| 0 <= i < binding_index(bs, id) implies bs[i].id != id by {
                if i > 0 {
                    assert(bs.drop_first()[i - 1].id != id);
                }
            }
        }
    }
}

/// Under unique identifiers, the lookup returns the matching binding itself.
pub proof fn lemma_binding_index_unique(bs: Seq<BindingModel>, i: int)
    requires
        forall|a: int, b: int| 0 <= a < b < bs.len() ==> bs[a].id != bs[b].id,
        0 <= i < bs.len(),
    ensures
        binding_index(bs, bs[i].id as int) == i,
    decreases bs,
{
    if i > 0 {
        lemma_binding_index_unique(bs.drop_first(), i - 1);
    }
}

/// Well-formedness of a registry: identifiers are unique, and every bound
/// schema is well formed.
pub open spec fn reg_wf(r: RegistryModel) -> bool {
    &&& (forall|a: int, b: int|
        0 <= a < b < r.bindings.len() ==> r.bindings[a].id != r.bindings[b].id)
    &&& (forall|i: int| 0 <= i < r.bindings.len() ==> schema_wf(#[trigger] r.bindings[i].schema))
}

/// Whether an envelope names a binding and its values fit that schema.
pub open spec fn env_fits(r: RegistryModel, e: EnvelopeModel) -> bool {
    &&& e.packet < r.bindings.len()
    &&& fields_fit(r.bindings[e.packet as int].schema.fields, e.fields)
}

/// Whether every length in the envelope's encoding fits its prefix.
pub open spec fn env_lens_ok(r: RegistryModel, e: EnvelopeModel) -> bool {
    e.packet < r.bindings.len() && fields_lens_ok(r.bindings[e.packet as int].schema.fields, e.fields)
}

/// Decodes a packet from the front of `s`: the VarInt identifier, then the
/// bound schema's fields.
pub open spec fn sdec_packet(r: RegistryModel, s: Seq<u8>) -> DecOut<EnvelopeModel> {
    match varint_dec(s) {
        VarIntScan::Found { value, len } => {
            let id = varint_value(value);
            let idx = binding_index(r.bindings, id);
            if idx < 0 {
                DecOut::Bad { kind: ErrorKind::UnknownPacketId(id as i32), trail: Seq::empty() }
            } else {
                match sdec_fields(
                    r.bindings[idx].schema.name,
                    r.bindings[idx].schema.fields,
                    s.skip(len as int),
                ) {
                    DecOut::Good { v, n } => DecOut::Good {
                        v: (EnvelopeModel { packet: idx as nat, fields: v }),
                        n: len + n,
                    },
                    DecOut::Bad { kind, trail } => DecOut::Bad { kind, trail },
                }
            }
        },
        VarIntScan::Short => DecOut::Bad {
            kind: ErrorKind::TruncatedInput,
            trail: Seq::empty(),
        },
        VarIntScan::TooLong => DecOut::Bad {
            kind: ErrorKind::CorruptVarInt,
            trail: Seq::empty(),
        },
    }
}

/// Encodes an envelope: the binding's identifier, then its fields.
pub open spec fn senc_packet(r: RegistryModel, e: EnvelopeModel) -> Seq<u8> {
    varint_enc(r.bindings[e.packet as int].id) + senc_fields(
        r.bindings[e.packet as int].schema.fields,
        e.fields,
    )
}

impl PacketRegistry {
    /// Decodes one packet from `bytes` at `pos`. An identifier bound in the
    /// registry dispatches to its schema; one that is not fails with exactly
    /// that identifier, consuming nothing past it.
    pub fn decode(&self, bytes: &Vec<u8>, pos: &mut usize, version: ProtocolVersion) -> (r: Result<
        Envelope,
        CodecError,
    >)
        requires
            *old(pos) <= bytes@.len(),
        ensures
            *old(pos) <= *final(pos) <= bytes@.len(),
            (match sdec_packet(self@, bytes@.skip(*old(pos) as int)) {
                DecOut::Good { v, n } => r matches Ok(env) && env@ == v && *final(pos) == *old(pos)
                    + n,
                DecOut::Bad { kind, trail } => r matches Err(e) && e.kind == kind
                    && e.trail_model() == trail,
            }),
            (match varint_dec(bytes@.skip(*old(pos) as int)) {
                VarIntScan::Found { value, len } => binding_index(
                    self@.bindings,
                    varint_value(value),
                ) < 0 ==> *final(pos) == *old(pos) + len,
                _ => true,
            }),
    {
        let ghost s = bytes@.skip(*old(pos) as int);
        proof {
            lemma_bindings_model_index(self.bindings@);
        }
        let id = match read_varint(bytes, pos, version) {
            Ok(v) => v,
            Err(e) => {
                proof {
                    assert(e.trail_model() =~= Seq::<crate::error::TraceModel>::empty());
                }
                return Err(e);
            },
        };
        let ghost idlen = (*pos - *old(pos)) as nat;
        match self.find_binding(id) {
            Option::Some(idx) => {
                proof {
                    lemma_binding_index(self@.bindings, id as int);
                    assert(bytes@.skip(*pos as int) =~= s.skip(idlen as int));
                }
                let b = &self.bindings[idx];
                match decode_fields(&b.schema.name, &b.schema.fields, bytes, pos, version) {
                    Ok(vals) => Ok(Envelope { packet: idx, fields: vals }),
                    Err(e) => Err(e),
                }
            },
            Option::None => Err(CodecError::new(ErrorKind::UnknownPacketId(id))),
        }
    }

    /// The index of the first binding with identifier `id`.
    pub fn find_binding(&self, id: i32) -> (r: Option<usize>)
        ensures
            (match r {
                Option::Some(i) => binding_index(self@.bindings, id as int) == i as int,
                Option::None => binding_index(self@.bindings, id as int) < 0,
            }),
    {
        let ghost bm = self@.bindings;
        proof {
            lemma_bindings_model_index(self.bindings@);
            lemma_binding_index(bm, id as int);
        }
        let mut j: usize = 0;
        while j < self.bindings.len()
            invariant
                j <= self.bindings@.len(),
                bm == self@.bindings,
                bm.len() == self.bindings@.len(),
                forall|i: int| 0 <= i < self.bindings@.len() ==> bm[i].id == self.bindings@[i].id,
                forall|i: int| 0 <= i < j ==> bm[i].id != id,
                binding_index(bm, id as int) >= 0 ==> bm[binding_index(bm, id as int)].id == id,
                binding_index(bm, id as int) >= 0 ==> forall|i: int|
                    0 <= i < binding_index(bm, id as int) ==> bm[i].id != id,
                binding_index(bm, id as int) < 0 ==> forall|i: int|
                    0 <= i < bm.len() ==> bm[i].id != id,
            decreases self.bindings@.len() - j,
        {
            if self.bindings[j].id == id {
                proof {
                    let bi = binding_index(bm, id as int);
                    if bi < 0 {
                        assert(bm[j as int].id != id);
                        assert(false);
                    }
                    if bi < j {
                        assert(bm[bi].id != id);
                        assert(false);
                    }
                    if bi > j {
                        assert(bm[j as int].id != id);
                        assert(false);
                    }
                }
                return Option::Some(j);
            }
            j += 1;
        }
        proof {
            let bi = binding_index(bm, id as int);
            if bi >= 0 {
                assert(bm[bi].id != id);
                assert(false);
            }
        }
        Option::None
    }

    /// Encodes an envelope: its binding's identifier, then its fields. The
    /// envelope must fit the registry; the one failure is an oversized
    /// length inside a field value.
    pub fn encode(&self, env: &Envelope, out: &mut Vec<u8>, version: ProtocolVersion) -> (r:
        Result<(), CodecError>)
        requires
            env_fits(self@, env@),
            forall|i: int|
                0 <= i < self@.bindings.len() ==> fields_wf(
                    #[trigger] self@.bindings[i].schema.fields,
                ),
        ensures
            r is Ok <==> env_lens_ok(self@, env@),
            r is Ok ==> final(out)@ == old(out)@ + senc_packet(self@, env@),
            r matches Err(e) ==> e.kind == ErrorKind::OversizedValue,
    {
        proof {
            lemma_bindings_model_index(self.bindings@);
        }
        let b = &self.bindings[env.packet];
        write_varint(b.id, out, version);
        match encode_fields(&b.schema.fields, &env.fields, out, version) {
            Ok(()) => {
                proof {
                    assert(out@ =~= old(out)@ + senc_packet(self@, env@));
                }
                Ok(())
            },
            Err(e) => Err(e),
        }
    }

    /// The identifier bound to an envelope's packet.
    pub fn id_of(&self, env: &Envelope) -> (r: i32)
        requires
            env@.packet < self@.bindings.len(),
        ensures
            r == self@.bindings[env@.packet as int].id,
    {
        proof {
            lemma_bindings_model_index(self.bindings@);
        }
        self.bindings[env.packet].id
    }

    /// Narrows an envelope to one packet type: its field values when the
    /// envelope holds that packet, and nothing otherwise.
    pub fn narrow(&self, env: Envelope, target: usize) -> (r: Option<Vec<Value>>)
        ensures
            env@.packet == target ==> (r matches Some(vals) && values_model(vals@)
                == env@.fields),
            env@.packet != target ==> r is None,
    {
        if env.packet == target {
            Option::Some(env.fields)
        } else {
            Option::None
        }
    }

    /// Widens one packet's field values back into an envelope. Infallible:
    /// every bound packet has exactly one identifier.
    pub fn widen(&self, target: usize, fields: Vec<Value>) -> (r: Envelope)
        requires
            target < self@.bindings.len(),
        ensures
            r@.packet == target,
            r@.fields == values_model(fields@),
    {
        Envelope { packet: target, fields }
    }
}

/// Trait for packets which can be extracted from a packet union. An
/// implementor names its unique identifier within the union and destructures
/// union values of its own variant.
pub trait VariantOf<Enum> where Self: Sized {
    /// The unique identifier deciding whether a union value is this variant.
    fn discriminant_id() -> u32;

    /// Extracts this variant's value from the union, when it is this variant.
    fn destructure(e: Enum) -> Option<Self>;
}

/// Round trip for a whole packet: decoding an envelope's encoding yields the
/// envelope back and consumes every byte, provided every bound schema is
/// well formed, identifiers are unique, and the envelope fits its binding.
pub proof fn lemma_packet_roundtrip(r: RegistryModel, e: EnvelopeModel)
    requires
        reg_wf(r),
        env_fits(r, e),
        env_lens_ok(r, e),
        fields_closed(r.bindings[e.packet as int].schema.fields),
    ensures
        sdec_packet(r, senc_packet(r, e)) == (DecOut::Good {
            v: e,
            n: senc_packet(r, e).len(),
        }),
{
    let b = r.bindings[e.packet as int];
    let fe = senc_fields(b.schema.fields, e.fields);
    let s = senc_packet(r, e);
    assert(s =~= varint_enc(b.id) + fe);
    lemma_varint_roundtrip(b.id, fe);
    lemma_binding_index_unique(r.bindings, e.packet as int);
    assert(s.skip(varint_enc(b.id).len() as int) =~= fe + Seq::<u8>::empty());
    lemma_fields_roundtrip(b.schema.name, b.schema.fields, e.fields, Seq::empty());
}

/// Unknown-identifier safety: a well-formed identifier bound to no schema
/// fails with exactly that identifier.
pub proof fn lemma_unknown_id_safety(r: RegistryModel, s: Seq<u8>)
    requires
        varint_dec(s) is Found,
        binding_index(r.bindings, varint_value(varint_dec(s)->value)) < 0,
    ensures
        sdec_packet(r, s) == (DecOut::Bad::<EnvelopeModel> {
            kind: ErrorKind::UnknownPacketId(varint_value(varint_dec(s)->value) as i32),
            trail: Seq::empty(),
        }),
{
}

} // verus!
