//! The play-phase client-to-server packet registry.
//!
//! Schemas are plain data: one ordered field list per packet, tagged variant
//! schemas for the enumerated fields, and one registry binding per packet.
//! Identifiers are assigned in declaration order, so they are unique and the
//! registry is well formed. Which packets exist is content, not mechanism:
//! the codec engine is specified generically over any well-formed registry.

use vstd::prelude::*;

use crate::registry::{
    bindings_model, lemma_bindings_model_index, BindingModel, PacketBinding, PacketRegistry,
    reg_wf, RegistryModel,
};
use crate::schema::{
    cases_closed, cases_model, cases_wf, fields_closed, fields_model, fields_wf,
    lemma_cases_model_index, lemma_fields_model_index, schema_wf, wt_closed, wt_model, wt_wf,
    CaseModel, FieldDescriptor, FieldModel, PacketSchema, SchemaModel, TaggedModel, TaggedSchema,
    VariantCase, WireType, WtModel,
};

verus! {

/// Fields whose types are all well formed make a well-formed list.
proof fn lemma_fields_wf_all(fields: Seq<FieldModel>)
    requires
        forall|i: int| 0 <= i < fields.len() ==> wt_wf(#[trigger] fields[i].ty),
    ensures
        fields_wf(fields),
    decreases fields,
{
    if fields.len() > 0 {
        assert(wt_wf(fields[0].ty));
        assert forall|i: int| 0 <= i < fields.drop_first().len() implies wt_wf(
            #[trigger] fields.drop_first()[i].ty,
        ) by {
            assert(fields.drop_first()[i] == fields[i + 1]);
        }
        lemma_fields_wf_all(fields.drop_first());
    }
}

/// Fields whose types are all closed make a closed list.
proof fn lemma_fields_closed_all(fields: Seq<FieldModel>)
    requires
        forall|i: int| 0 <= i < fields.len() ==> wt_closed(#[trigger] fields[i].ty),
    ensures
        fields_closed(fields),
    decreases fields,
{
    if fields.len() > 0 {
        assert forall|i: int| 0 <= i < fields.drop_first().len() implies wt_closed(
            #[trigger] fields.drop_first()[i].ty,
        ) by {
            assert(fields.drop_first()[i] == fields[i + 1]);
        }
        lemma_fields_closed_all(fields.drop_first());
    }
}

/// Cases whose field lists are all well formed make a well-formed case set.
proof fn lemma_cases_wf_all(cases: Seq<CaseModel>)
    requires
        forall|i: int| 0 <= i < cases.len() ==> fields_wf(#[trigger] cases[i].fields),
    ensures
        cases_wf(cases),
    decreases cases,
{
    if cases.len() > 0 {
        assert forall|i: int| 0 <= i < cases.drop_first().len() implies fields_wf(
            #[trigger] cases.drop_first()[i].fields,
        ) by {
            assert(cases.drop_first()[i] == cases[i + 1]);
        }
        lemma_cases_wf_all(cases.drop_first());
    }
}

/// Cases whose field lists are all closed make a closed case set.
proof fn lemma_cases_closed_all(cases: Seq<CaseModel>)
    requires
        forall|i: int| 0 <= i < cases.len() ==> fields_closed(#[trigger] cases[i].fields),
    ensures
        cases_closed(cases),
    decreases cases,
{
    if cases.len() > 0 {
        assert forall|i: int| 0 <= i < cases.drop_first().len() implies fields_closed(
            #[trigger] cases.drop_first()[i].fields,
        ) by {
            assert(cases.drop_first()[i] == cases[i + 1]);
        }
        lemma_cases_closed_all(cases.drop_first());
    }
}

/// Appends one field descriptor to a field list under construction.
fn pf(f: &mut Vec<FieldDescriptor>, name: &str, ty: WireType)
    ensures
        fields_model(final(f)@) == fields_model(old(f)@).push(
            (FieldModel { name: name@, ty: wt_model(ty) }),
        ),
{
    let ghost tym = wt_model(ty);
    f.push(FieldDescriptor { name: name.to_owned(), ty });
    proof {
        lemma_fields_model_index(f@);
        lemma_fields_model_index(f@.drop_last());
        assert(f@.drop_last() =~= old(f)@);
        assert(fields_model(f@) =~= fields_model(old(f)@).push(
            (FieldModel { name: name@, ty: tym }),
        ));
    }
}

/// Appends one variant case to a case set under construction.
fn pc(cs: &mut Vec<VariantCase>, disc: i32, name: &str, fields: Vec<FieldDescriptor>)
    ensures
        cases_model(final(cs)@) == cases_model(old(cs)@).push(
            (CaseModel { disc, name: name@, fields: fields_model(fields@) }),
        ),
{
    let ghost fm = fields_model(fields@);
    cs.push(VariantCase { disc, name: name.to_owned(), fields });
    proof {
        lemma_cases_model_index(cs@);
        lemma_cases_model_index(cs@.drop_last());
        assert(cs@.drop_last() =~= old(cs)@);
        assert(cases_model(cs@) =~= cases_model(old(cs)@).push(
            (CaseModel { disc, name: name@, fields: fm }),
        ));
    }
}

/// Builds a tagged variant type over a VarInt discriminant.
fn tagged(name: &str, cases: Vec<VariantCase>) -> (r: WireType)
    requires
        forall|a: int, b: int|
            0 <= a < b < cases_model(cases@).len() ==> cases_model(cases@)[a].disc != cases_model(
                cases@,
            )[b].disc,
        forall|i: int|
            0 <= i < cases_model(cases@).len() ==> fields_wf(#[trigger] cases_model(cases@)[i].fields)
                && fields_closed(cases_model(cases@)[i].fields),
    ensures
        wt_model(r) == (WtModel::Tagged(
            (TaggedModel { name: name@, disc: Box::new(WtModel::VarInt), cases: cases_model(cases@) }),
        )),
        wt_wf(wt_model(r)),
        wt_closed(wt_model(r)),
{
    let ghost cm = cases_model(cases@);
    let bx = Box::new(WireType::VarInt);
    proof {
        assert(*bx == WireType::VarInt);
        assert(wt_model(WireType::VarInt) == WtModel::VarInt);
    }
    let r = WireType::Tagged(TaggedSchema { name: name.to_owned(), disc: bx, cases });
    proof {
        lemma_cases_wf_all(cm);
        lemma_cases_closed_all(cm);
        assert(wt_model(r) is Tagged);
        if let WtModel::Tagged(x) = wt_model(r) {
            assert(*x.disc == WtModel::VarInt);
            assert(x.cases == cm);
            assert forall|i: int| 0 <= i < x.cases.len() implies crate::schema::disc_in_range(
                *x.disc,
                x.cases[i].disc,
            ) by {}
            assert(wt_wf(wt_model(r)));
            assert(wt_closed(*x.disc));
            assert(cases_closed(x.cases));
            assert(wt_closed(wt_model(r)));
            assert(x.name == name@);
            assert(wt_model(r) == (WtModel::Tagged(
                (TaggedModel {
                    name: name@,
                    disc: Box::new(WtModel::VarInt),
                    cases: cm,
                }),
            )));
        }
    }
    r
}

/// Appends one packet binding, with the next identifier in sequence.
fn bind(v: &mut Vec<PacketBinding>, name: &str, fields: Vec<FieldDescriptor>)
    requires
        old(v)@.len() < 1000,
        forall|i: int|
            0 <= i < fields_model(fields@).len() ==> wt_wf(#[trigger] fields_model(fields@)[i].ty),
        forall|i: int|
            0 <= i < fields_model(fields@).len() ==> (wt_closed(
                #[trigger] fields_model(fields@)[i].ty,
            ) || (i == fields_model(fields@).len() - 1 && fields_model(fields@)[i].ty
                is Remainder)),
    ensures
        final(v)@.len() == old(v)@.len() + 1,
        bindings_model(final(v)@) == bindings_model(old(v)@).push(
            (BindingModel {
                id: old(v)@.len() as i32,
                schema: (SchemaModel { name: name@, fields: fields_model(fields@) }),
            }),
        ),
        schema_wf((SchemaModel { name: name@, fields: fields_model(fields@) })),
{
    let ghost fm = fields_model(fields@);
    proof {
        assert forall|i: int| 0 <= i < fm.len() implies wt_wf(#[trigger] fm[i].ty) by {}
        lemma_fields_wf_all(fm);
    }
    let id = v.len() as i32;
    v.push(PacketBinding { id, schema: PacketSchema { name: name.to_owned(), fields } });
    proof {
        lemma_bindings_model_index(v@);
        lemma_bindings_model_index(v@.drop_last());
        assert(v@.drop_last() =~= old(v)@);
        assert(bindings_model(v@) =~= bindings_model(old(v)@).push(
            (BindingModel {
                id: old(v)@.len() as i32,
                schema: (SchemaModel { name: name@, fields: fm }),
            }),
        ));
    }
}

/// Bindings 0 through 7 of the play table.
pub open spec fn play_table_a() -> Seq<BindingModel> {
    Seq::<BindingModel>::empty()
        .push(
            (BindingModel { id: 0, schema: (SchemaModel { name: "TeleportConfirm"@, fields: Seq::<FieldModel>::empty().push((FieldModel { name: "teleport_id"@, ty: WtModel::VarInt })) }) }),
        )
        .push(
            (BindingModel { id: 1, schema: (SchemaModel { name: "QueryBlockNbt"@, fields: Seq::<FieldModel>::empty().push((FieldModel { name: "transaction_id"@, ty: WtModel::VarInt })).push((FieldModel { name: "position"@, ty: WtModel::BlockPos })) }) }),
        )
        .push(
            (BindingModel { id: 2, schema: (SchemaModel { name: "QueryEntityNbt"@, fields: Seq::<FieldModel>::empty().push((FieldModel { name: "transaction_id"@, ty: WtModel::VarInt })).push((FieldModel { name: "entity_id"@, ty: WtModel::VarInt })) }) }),
        )
        .push(
            (BindingModel { id: 3, schema: (SchemaModel { name: "SetDifficulty"@, fields: Seq::<FieldModel>::empty().push((FieldModel { name: "new_difficulty"@, ty: WtModel::U8 })) }) }),
        )
        .push(
            (BindingModel { id: 4, schema: (SchemaModel { name: "ChatMessage"@, fields: Seq::<FieldModel>::empty().push((FieldModel { name: "message"@, ty: WtModel::Utf8 })) }) }),
        )
        .push(
            (BindingModel { id: 5, schema: (SchemaModel { name: "ClientStatus"@, fields: Seq::<FieldModel>::empty().push((FieldModel { name: "status"@, ty: WtModel::Tagged((TaggedModel { name: "ClientStatus"@, disc: Box::new(WtModel::VarInt), cases: Seq::<CaseModel>::empty().push((CaseModel { disc: 0, name: "PerformRespawn"@, fields: Seq::<FieldModel>::empty() })).push((CaseModel { disc: 1, name: "RequestStats"@, fields: Seq::<FieldModel>::empty() })) })) })) }) }),
        )
        .push(
            (BindingModel { id: 6, schema: (SchemaModel { name: "ClientSettings"@, fields: Seq::<FieldModel>::empty().push((FieldModel { name: "locale"@, ty: WtModel::Utf8 })).push((FieldModel { name: "view_distance"@, ty: WtModel::U8 })).push((FieldModel { name: "chat_mode"@, ty: WtModel::Tagged((TaggedModel { name: "ChatMode"@, disc: Box::new(WtModel::VarInt), cases: Seq::<CaseModel>::empty().push((CaseModel { disc: 0, name: "Enabled"@, fields: Seq::<FieldModel>::empty() })).push((CaseModel { disc: 1, name: "CommandsOnly"@, fields: Seq::<FieldModel>::empty() })).push((CaseModel { disc: 2, name: "Hidden"@, fields: Seq::<FieldModel>::empty() })) })) })).push((FieldModel { name: "chat_colors"@, ty: WtModel::Bool })).push((FieldModel { name: "displayed_skin_parts"@, ty: WtModel::U8 })).push((FieldModel { name: "main_hand"@, ty: WtModel::VarInt })) }) }),
        )
        .push(
            (BindingModel { id: 7, schema: (SchemaModel { name: "TabComplete"@, fields: Seq::<FieldModel>::empty().push((FieldModel { name: "transaction_id"@, ty: WtModel::VarInt })).push((FieldModel { name: "text"@, ty: WtModel::Utf8 })) }) }),
        )
}

/// Appends bindings 0 through 7.
#[verifier::rlimit(100)]
#[verifier::spinoff_prover]
fn bind_chunk_a(v: &mut Vec<PacketBinding>)
    requires
        old(v)@.len() == 0,
    ensures
        final(v)@.len() == 8,
        bindings_model(final(v)@) == bindings_model(old(v)@) + play_table_a(),
        forall|i: int| 0 <= i < 8 ==> (#[trigger] play_table_a()[i]).id == 0 + i,
        forall|i: int|
            0 <= i < 8 ==> schema_wf((#[trigger] play_table_a()[i]).schema),
{
    let mut cs: Vec<VariantCase> = Vec::new();
    pc(&mut cs, 0, "PerformRespawn", Vec::new());
    pc(&mut cs, 1, "RequestStats", Vec::new());
    let client_status = tagged("ClientStatus", cs);

    let mut cs: Vec<VariantCase> = Vec::new();
    pc(&mut cs, 0, "Enabled", Vec::new());
    pc(&mut cs, 1, "CommandsOnly", Vec::new());
    pc(&mut cs, 2, "Hidden", Vec::new());
    let chat_mode = tagged("ChatMode", cs);


    let mut f: Vec<FieldDescriptor> = Vec::new();
    pf(&mut f, "teleport_id", WireType::VarInt);
    bind(v, "TeleportConfirm", f);

    let mut f: Vec<FieldDescriptor> = Vec::new();
    pf(&mut f, "transaction_id", WireType::VarInt);
    pf(&mut f, "position", WireType::BlockPos);
    bind(v, "QueryBlockNbt", f);

    let mut f: Vec<FieldDescriptor> = Vec::new();
    pf(&mut f, "transaction_id", WireType::VarInt);
    pf(&mut f, "entity_id", WireType::VarInt);
    bind(v, "QueryEntityNbt", f);

    let mut f: Vec<FieldDescriptor> = Vec::new();
    pf(&mut f, "new_difficulty", WireType::U8);
    bind(v, "SetDifficulty", f);

    let mut f: Vec<FieldDescriptor> = Vec::new();
    pf(&mut f, "message", WireType::Utf8);
    bind(v, "ChatMessage", f);

    let mut f: Vec<FieldDescriptor> = Vec::new();
    pf(&mut f, "status", client_status);
    bind(v, "ClientStatus", f);

    let mut f: Vec<FieldDescriptor> = Vec::new();
    pf(&mut f, "locale", WireType::Utf8);
    pf(&mut f, "view_distance", WireType::U8);
    pf(&mut f, "chat_mode", chat_mode);
    pf(&mut f, "chat_colors", WireType::Bool);
    pf(&mut f, "displayed_skin_parts", WireType::U8);
    pf(&mut f, "main_hand", WireType::VarInt);
    bind(v, "ClientSettings", f);

    let mut f: Vec<FieldDescriptor> = Vec::new();
    pf(&mut f, "transaction_id", WireType::VarInt);
    pf(&mut f, "text", WireType::Utf8);
    bind(v, "TabComplete", f);

    proof {
        assert(bindings_model(v@) =~= bindings_model(old(v)@) + play_table_a());
    }
}

/// Bindings 8 through 15 of the play table.
pub open spec fn play_table_b() -> Seq<BindingModel> {
    Seq::<BindingModel>::empty()
        .push(
            (BindingModel { id: 8, schema: (SchemaModel { name: "WindowConfirmation"@, fields: Seq::<FieldModel>::empty().push((FieldModel { name: "window_id"@, ty: WtModel::U8 })).push((FieldModel { name: "action_number"@, ty: WtModel::U16 })).push((FieldModel { name: "accepted"@, ty: WtModel::Bool })) }) }),
        )
        .push(
            (BindingModel { id: 9, schema: (SchemaModel { name: "ClickWindowButton"@, fields: Seq::<FieldModel>::empty().push((FieldModel { name: "window_id"@, ty: WtModel::U8 })).push((FieldModel { name: "button_id"@, ty: WtModel::U8 })) }) }),
        )
        .push(
            (BindingModel { id: 10, schema: (SchemaModel { name: "CloseWindow"@, fields: Seq::<FieldModel>::empty().push((FieldModel { name: "window_id"@, ty: WtModel::U8 })) }) }),
        )
        .push(
            (BindingModel { id: 11, schema: (SchemaModel { name: "PluginMessage"@, fields: Seq::<FieldModel>::empty().push((FieldModel { name: "channel"@, ty: WtModel::Utf8 })).push((FieldModel { name: "data"@, ty: WtModel::Remainder })) }) }),
        )
        .push(
            (BindingModel { id: 12, schema: (SchemaModel { name: "InteractEntity"@, fields: Seq::<FieldModel>::empty().push((FieldModel { name: "entity_id"@, ty: WtModel::VarInt })).push((FieldModel { name: "kind"@, ty: WtModel::Tagged((TaggedModel { name: "InteractEntityKind"@, disc: Box::new(WtModel::VarInt), cases: Seq::<CaseModel>::empty().push((CaseModel { disc: 0, name: "Interact"@, fields: Seq::<FieldModel>::empty() })).push((CaseModel { disc: 1, name: "Attack"@, fields: Seq::<FieldModel>::empty() })).push((CaseModel { disc: 2, name: "InteractAt"@, fields: Seq::<FieldModel>::empty().push((FieldModel { name: "target_x"@, ty: WtModel::F64Bits })).push((FieldModel { name: "target_y"@, ty: WtModel::F64Bits })).push((FieldModel { name: "target_z"@, ty: WtModel::F64Bits })).push((FieldModel { name: "hand"@, ty: WtModel::VarInt })) })) })) })) }) }),
        )
        .push(
            (BindingModel { id: 13, schema: (SchemaModel { name: "KeepAlive"@, fields: Seq::<FieldModel>::empty().push((FieldModel { name: "id"@, ty: WtModel::U64 })) }) }),
        )
        .push(
            (BindingModel { id: 14, schema: (SchemaModel { name: "LockDifficulty"@, fields: Seq::<FieldModel>::empty().push((FieldModel { name: "locked"@, ty: WtModel::Bool })) }) }),
        )
        .push(
            (BindingModel { id: 15, schema: (SchemaModel { name: "PlayerPosition"@, fields: Seq::<FieldModel>::empty().push((FieldModel { name: "x"@, ty: WtModel::F64Bits })).push((FieldModel { name: "feet_y"@, ty: WtModel::F64Bits })).push((FieldModel { name: "z"@, ty: WtModel::F64Bits })).push((FieldModel { name: "on_ground"@, ty: WtModel::Bool })) }) }),
        )
}

/// Appends bindings 8 through 15.
#[verifier::rlimit(100)]
#[verifier::spinoff_prover]
fn bind_chunk_b(v: &mut Vec<PacketBinding>)
    requires
        old(v)@.len() == 8,
    ensures
        final(v)@.len() == 16,
        bindings_model(final(v)@) == bindings_model(old(v)@) + play_table_b(),
        forall|i: int| 0 <= i < 8 ==> (#[trigger] play_table_b()[i]).id == 8 + i,
        forall|i: int|
            0 <= i < 8 ==> schema_wf((#[trigger] play_table_b()[i]).schema),
{
    let mut cs: Vec<VariantCase> = Vec::new();
    pc(&mut cs, 0, "Interact", Vec::new());
    pc(&mut cs, 1, "Attack", Vec::new());
    let mut cf: Vec<FieldDescriptor> = Vec::new();
    pf(&mut cf, "target_x", WireType::F64Bits);
    pf(&mut cf, "target_y", WireType::F64Bits);
    pf(&mut cf, "target_z", WireType::F64Bits);
    pf(&mut cf, "hand", WireType::VarInt);
    proof {
        lemma_fields_wf_all(fields_model(cf@));
        lemma_fields_closed_all(fields_model(cf@));
    }
    pc(&mut cs, 2, "InteractAt", cf);
    let interact_entity_kind = tagged("InteractEntityKind", cs);


    let mut f: Vec<FieldDescriptor> = Vec::new();
    pf(&mut f, "window_id", WireType::U8);
    pf(&mut f, "action_number", WireType::U16);
    pf(&mut f, "accepted", WireType::Bool);
    bind(v, "WindowConfirmation", f);

    let mut f: Vec<FieldDescriptor> = Vec::new();
    pf(&mut f, "window_id", WireType::U8);
    pf(&mut f, "button_id", WireType::U8);
    bind(v, "ClickWindowButton", f);

    let mut f: Vec<FieldDescriptor> = Vec::new();
    pf(&mut f, "window_id", WireType::U8);
    bind(v, "CloseWindow", f);

    let mut f: Vec<FieldDescriptor> = Vec::new();
    pf(&mut f, "channel", WireType::Utf8);
    pf(&mut f, "data", WireType::Remainder);
    bind(v, "PluginMessage", f);

    let mut f: Vec<FieldDescriptor> = Vec::new();
    pf(&mut f, "entity_id", WireType::VarInt);
    pf(&mut f, "kind", interact_entity_kind);
    bind(v, "InteractEntity", f);

    let mut f: Vec<FieldDescriptor> = Vec::new();
    pf(&mut f, "id", WireType::U64);
    bind(v, "KeepAlive", f);

    let mut f: Vec<FieldDescriptor> = Vec::new();
    pf(&mut f, "locked", WireType::Bool);
    bind(v, "LockDifficulty", f);

    let mut f: Vec<FieldDescriptor> = Vec::new();
    pf(&mut f, "x", WireType::F64Bits);
    pf(&mut f, "feet_y", WireType::F64Bits);
    pf(&mut f, "z", WireType::F64Bits);
    pf(&mut f, "on_ground", WireType::Bool);
    bind(v, "PlayerPosition", f);

    proof {
        assert(bindings_model(v@) =~= bindings_model(old(v)@) + play_table_b());
    }
}

/// Bindings 16 through 23 of the play table.
pub open spec fn play_table_c() -> Seq<BindingModel> {
    Seq::<BindingModel>::empty()
        .push(
            (BindingModel { id: 16, schema: (SchemaModel { name: "PlayerPositionAndRotation"@, fields: Seq::<FieldModel>::empty().push((FieldModel { name: "x"@, ty: WtModel::F64Bits })).push((FieldModel { name: "feet_y"@, ty: WtModel::F64Bits })).push((FieldModel { name: "z"@, ty: WtModel::F64Bits })).push((FieldModel { name: "yaw"@, ty: WtModel::F32Bits })).push((FieldModel { name: "pitch"@, ty: WtModel::F32Bits })).push((FieldModel { name: "on_ground"@, ty: WtModel::Bool })) }) }),
        )
        .push(
            (BindingModel { id: 17, schema: (SchemaModel { name: "PlayerRotation"@, fields: Seq::<FieldModel>::empty().push((FieldModel { name: "yaw"@, ty: WtModel::F32Bits })).push((FieldModel { name: "pitch"@, ty: WtModel::F32Bits })).push((FieldModel { name: "on_ground"@, ty: WtModel::Bool })) }) }),
        )
        .push(
            (BindingModel { id: 18, schema: (SchemaModel { name: "PlayerMovement"@, fields: Seq::<FieldModel>::empty().push((FieldModel { name: "on_ground"@, ty: WtModel::Bool })) }) }),
        )
        .push(
            (BindingModel { id: 19, schema: (SchemaModel { name: "VehicleMove"@, fields: Seq::<FieldModel>::empty().push((FieldModel { name: "x"@, ty: WtModel::F64Bits })).push((FieldModel { name: "y"@, ty: WtModel::F64Bits })).push((FieldModel { name: "z"@, ty: WtModel::F64Bits })).push((FieldModel { name: "yaw"@, ty: WtModel::F32Bits })).push((FieldModel { name: "pitch"@, ty: WtModel::F32Bits })) }) }),
        )
        .push(
            (BindingModel { id: 20, schema: (SchemaModel { name: "SteerBoat"@, fields: Seq::<FieldModel>::empty().push((FieldModel { name: "left_paddle_turning"@, ty: WtModel::Bool })).push((FieldModel { name: "right_paddle_turning"@, ty: WtModel::Bool })) }) }),
        )
        .push(
            (BindingModel { id: 21, schema: (SchemaModel { name: "PickItem"@, fields: Seq::<FieldModel>::empty().push((FieldModel { name: "slot"@, ty: WtModel::VarInt })) }) }),
        )
        .push(
            (BindingModel { id: 22, schema: (SchemaModel { name: "CraftRecipeRequest"@, fields: Seq::<FieldModel>::empty().push((FieldModel { name: "window_id"@, ty: WtModel::U8 })).push((FieldModel { name: "recipe"@, ty: WtModel::Utf8 })).push((FieldModel { name: "make_all"@, ty: WtModel::Bool })) }) }),
        )
        .push(
            (BindingModel { id: 23, schema: (SchemaModel { name: "PlayerAbilities"@, fields: Seq::<FieldModel>::empty().push((FieldModel { name: "flags"@, ty: WtModel::U8 })).push((FieldModel { name: "flying_speed"@, ty: WtModel::F32Bits })).push((FieldModel { name: "walking_speed"@, ty: WtModel::F32Bits })) }) }),
        )
}

/// Appends bindings 16 through 23.
#[verifier::rlimit(100)]
#[verifier::spinoff_prover]
fn bind_chunk_c(v: &mut Vec<PacketBinding>)
    requires
        old(v)@.len() == 16,
    ensures
        final(v)@.len() == 24,
        bindings_model(final(v)@) == bindings_model(old(v)@) + play_table_c(),
        forall|i: int| 0 <= i < 8 ==> (#[trigger] play_table_c()[i]).id == 16 + i,
        forall|i: int|
            0 <= i < 8 ==> schema_wf((#[trigger] play_table_c()[i]).schema),
{

    let mut f: Vec<FieldDescriptor> = Vec::new();
    pf(&mut f, "x", WireType::F64Bits);
    pf(&mut f, "feet_y", WireType::F64Bits);
    pf(&mut f, "z", WireType::F64Bits);
    pf(&mut f, "yaw", WireType::F32Bits);
    pf(&mut f, "pitch", WireType::F32Bits);
    pf(&mut f, "on_ground", WireType::Bool);
    bind(v, "PlayerPositionAndRotation", f);

    let mut f: Vec<FieldDescriptor> = Vec::new();
    pf(&mut f, "yaw", WireType::F32Bits);
    pf(&mut f, "pitch", WireType::F32Bits);
    pf(&mut f, "on_ground", WireType::Bool);
    bind(v, "PlayerRotation", f);

    let mut f: Vec<FieldDescriptor> = Vec::new();
    pf(&mut f, "on_ground", WireType::Bool);
    bind(v, "PlayerMovement", f);

    let mut f: Vec<FieldDescriptor> = Vec::new();
    pf(&mut f, "x", WireType::F64Bits);
    pf(&mut f, "y", WireType::F64Bits);
    pf(&mut f, "z", WireType::F64Bits);
    pf(&mut f, "yaw", WireType::F32Bits);
    pf(&mut f, "pitch", WireType::F32Bits);
    bind(v, "VehicleMove", f);

    let mut f: Vec<FieldDescriptor> = Vec::new();
    pf(&mut f, "left_paddle_turning", WireType::Bool);
    pf(&mut f, "right_paddle_turning", WireType::Bool);
    bind(v, "SteerBoat", f);

    let mut f: Vec<FieldDescriptor> = Vec::new();
    pf(&mut f, "slot", WireType::VarInt);
    bind(v, "PickItem", f);

    let mut f: Vec<FieldDescriptor> = Vec::new();
    pf(&mut f, "window_id", WireType::U8);
    pf(&mut f, "recipe", WireType::Utf8);
    pf(&mut f, "make_all", WireType::Bool);
    bind(v, "CraftRecipeRequest", f);

    let mut f: Vec<FieldDescriptor> = Vec::new();
    pf(&mut f, "flags", WireType::U8);
    pf(&mut f, "flying_speed", WireType::F32Bits);
    pf(&mut f, "walking_speed", WireType::F32Bits);
    bind(v, "PlayerAbilities", f);

    proof {
        assert(bindings_model(v@) =~= bindings_model(old(v)@) + play_table_c());
    }
}

/// Bindings 24 through 31 of the play table.
pub open spec fn play_table_d() -> Seq<BindingModel> {
    Seq::<BindingModel>::empty()
        .push(
            (BindingModel { id: 24, schema: (SchemaModel { name: "PlayerDigging"@, fields: Seq::<FieldModel>::empty().push((FieldModel { name: "status"@, ty: WtModel::Tagged((TaggedModel { name: "PlayerDiggingStatus"@, disc: Box::new(WtModel::VarInt), cases: Seq::<CaseModel>::empty().push((CaseModel { disc: 0, name: "StartDigging"@, fields: Seq::<FieldModel>::empty() })).push((CaseModel { disc: 1, name: "CancelDigging"@, fields: Seq::<FieldModel>::empty() })).push((CaseModel { disc: 2, name: "FinishDigging"@, fields: Seq::<FieldModel>::empty() })).push((CaseModel { disc: 3, name: "DropItemStack"@, fields: Seq::<FieldModel>::empty() })).push((CaseModel { disc: 4, name: "DropItem"@, fields: Seq::<FieldModel>::empty() })).push((CaseModel { disc: 5, name: "ShootArrow"@, fields: Seq::<FieldModel>::empty() })).push((CaseModel { disc: 6, name: "SwapItemInHand"@, fields: Seq::<FieldModel>::empty() })) })) })).push((FieldModel { name: "position"@, ty: WtModel::BlockPos })).push((FieldModel { name: "face"@, ty: WtModel::U8 })) }) }),
        )
        .push(
            (BindingModel { id: 25, schema: (SchemaModel { name: "EntityAction"@, fields: Seq::<FieldModel>::empty().push((FieldModel { name: "entity_id"@, ty: WtModel::VarInt })).push((FieldModel { name: "action_id"@, ty: WtModel::Tagged((TaggedModel { name: "EntityActionKind"@, disc: Box::new(WtModel::VarInt), cases: Seq::<CaseModel>::empty().push((CaseModel { disc: 0, name: "StartSneaking"@, fields: Seq::<FieldModel>::empty() })).push((CaseModel { disc: 1, name: "StopSneaking"@, fields: Seq::<FieldModel>::empty() })).push((CaseModel { disc: 2, name: "LeaveBed"@, fields: Seq::<FieldModel>::empty() })).push((CaseModel { disc: 3, name: "StartSprinting"@, fields: Seq::<FieldModel>::empty() })).push((CaseModel { disc: 4, name: "StopSprinting"@, fields: Seq::<FieldModel>::empty() })).push((CaseModel { disc: 5, name: "StartHorseJump"@, fields: Seq::<FieldModel>::empty() })).push((CaseModel { disc: 6, name: "StopJorseJump"@, fields: Seq::<FieldModel>::empty() })).push((CaseModel { disc: 7, name: "OpenHorseInventory"@, fields: Seq::<FieldModel>::empty() })).push((CaseModel { disc: 8, name: "StartElytraFlight"@, fields: Seq::<FieldModel>::empty() })) })) })).push((FieldModel { name: "jump_boost"@, ty: WtModel::VarInt })) }) }),
        )
        .push(
            (BindingModel { id: 26, schema: (SchemaModel { name: "SteerVehicle"@, fields: Seq::<FieldModel>::empty().push((FieldModel { name: "sideways"@, ty: WtModel::F32Bits })).push((FieldModel { name: "forward"@, ty: WtModel::F32Bits })).push((FieldModel { name: "flags"@, ty: WtModel::U8 })) }) }),
        )
        .push(
            (BindingModel { id: 27, schema: (SchemaModel { name: "RecipeBookData"@, fields: Seq::<FieldModel>::empty().push((FieldModel { name: "data"@, ty: WtModel::Tagged((TaggedModel { name: "RecipeBookData"@, disc: Box::new(WtModel::VarInt), cases: Seq::<CaseModel>::empty().push((CaseModel { disc: 0, name: "DisplayedRecipe"@, fields: Seq::<FieldModel>::empty().push((FieldModel { name: "recipe_id"@, ty: WtModel::Utf8 })) })).push((CaseModel { disc: 1, name: "RecipeBookStates"@, fields: Seq::<FieldModel>::empty().push((FieldModel { name: "crafting_open"@, ty: WtModel::Bool })).push((FieldModel { name: "crafting_filter"@, ty: WtModel::Bool })).push((FieldModel { name: "smelting_open"@, ty: WtModel::Bool })).push((FieldModel { name: "smelting_filter"@, ty: WtModel::Bool })).push((FieldModel { name: "blasting_open"@, ty: WtModel::Bool })).push((FieldModel { name: "blasting_filter"@, ty: WtModel::Bool })).push((FieldModel { name: "smoking_open"@, ty: WtModel::Bool })).push((FieldModel { name: "smoking_filter"@, ty: WtModel::Bool })) })) })) })) }) }),
        )
        .push(
            (BindingModel { id: 28, schema: (SchemaModel { name: "NameItem"@, fields: Seq::<FieldModel>::empty().push((FieldModel { name: "name"@, ty: WtModel::Utf8 })) }) }),
        )
        .push(
            (BindingModel { id: 29, schema: (SchemaModel { name: "ResourcePackStatus"@, fields: Seq::<FieldModel>::empty().push((FieldModel { name: "result"@, ty: WtModel::VarInt })) }) }),
        )
        .push(
            (BindingModel { id: 30, schema: (SchemaModel { name: "AdvancementTab"@, fields: Seq::<FieldModel>::empty().push((FieldModel { name: "tab_id"@, ty: WtModel::Optional(Box::new(WtModel::Utf8)) })) }) }),
        )
        .push(
            (BindingModel { id: 31, schema: (SchemaModel { name: "SelectTrade"@, fields: Seq::<FieldModel>::empty().push((FieldModel { name: "selected_slot"@, ty: WtModel::VarInt })) }) }),
        )
}

/// Appends bindings 24 through 31.
#[verifier::rlimit(100)]
#[verifier::spinoff_prover]
fn bind_chunk_d(v: &mut Vec<PacketBinding>)
    requires
        old(v)@.len() == 24,
    ensures
        final(v)@.len() == 32,
        bindings_model(final(v)@) == bindings_model(old(v)@) + play_table_d(),
        forall|i: int| 0 <= i < 8 ==> (#[trigger] play_table_d()[i]).id == 24 + i,
        forall|i: int|
            0 <= i < 8 ==> schema_wf((#[trigger] play_table_d()[i]).schema),
{
    let mut cs: Vec<VariantCase> = Vec::new();
    pc(&mut cs, 0, "StartDigging", Vec::new());
    pc(&mut cs, 1, "CancelDigging", Vec::new());
    pc(&mut cs, 2, "FinishDigging", Vec::new());
    pc(&mut cs, 3, "DropItemStack", Vec::new());
    pc(&mut cs, 4, "DropItem", Vec::new());
    pc(&mut cs, 5, "ShootArrow", Vec::new());
    pc(&mut cs, 6, "SwapItemInHand", Vec::new());
    let player_digging_status = tagged("PlayerDiggingStatus", cs);

    let mut cs: Vec<VariantCase> = Vec::new();
    pc(&mut cs, 0, "StartSneaking", Vec::new());
    pc(&mut cs, 1, "StopSneaking", Vec::new());
    pc(&mut cs, 2, "LeaveBed", Vec::new());
    pc(&mut cs, 3, "StartSprinting", Vec::new());
    pc(&mut cs, 4, "StopSprinting", Vec::new());
    pc(&mut cs, 5, "StartHorseJump", Vec::new());
    pc(&mut cs, 6, "StopJorseJump", Vec::new());
    pc(&mut cs, 7, "OpenHorseInventory", Vec::new());
    pc(&mut cs, 8, "StartElytraFlight", Vec::new());
    let entity_action_kind = tagged("EntityActionKind", cs);

    let mut cs: Vec<VariantCase> = Vec::new();
    let mut cf: Vec<FieldDescriptor> = Vec::new();
    pf(&mut cf, "recipe_id", WireType::Utf8);
    proof {
        lemma_fields_wf_all(fields_model(cf@));
        lemma_fields_closed_all(fields_model(cf@));
    }
    pc(&mut cs, 0, "DisplayedRecipe", cf);
    let mut cf: Vec<FieldDescriptor> = Vec::new();
    pf(&mut cf, "crafting_open", WireType::Bool);
    pf(&mut cf, "crafting_filter", WireType::Bool);
    pf(&mut cf, "smelting_open", WireType::Bool);
    pf(&mut cf, "smelting_filter", WireType::Bool);
    pf(&mut cf, "blasting_open", WireType::Bool);
    pf(&mut cf, "blasting_filter", WireType::Bool);
    pf(&mut cf, "smoking_open", WireType::Bool);
    pf(&mut cf, "smoking_filter", WireType::Bool);
    proof {
        lemma_fields_wf_all(fields_model(cf@));
        lemma_fields_closed_all(fields_model(cf@));
    }
    pc(&mut cs, 1, "RecipeBookStates", cf);
    let recipe_book_data = tagged("RecipeBookData", cs);


    let mut f: Vec<FieldDescriptor> = Vec::new();
    pf(&mut f, "status", player_digging_status);
    pf(&mut f, "position", WireType::BlockPos);
    pf(&mut f, "face", WireType::U8);
    bind(v, "PlayerDigging", f);

    let mut f: Vec<FieldDescriptor> = Vec::new();
    pf(&mut f, "entity_id", WireType::VarInt);
    pf(&mut f, "action_id", entity_action_kind);
    pf(&mut f, "jump_boost", WireType::VarInt);
    bind(v, "EntityAction", f);

    let mut f: Vec<FieldDescriptor> = Vec::new();
    pf(&mut f, "sideways", WireType::F32Bits);
    pf(&mut f, "forward", WireType::F32Bits);
    pf(&mut f, "flags", WireType::U8);
    bind(v, "SteerVehicle", f);

    let mut f: Vec<FieldDescriptor> = Vec::new();
    pf(&mut f, "data", recipe_book_data);
    bind(v, "RecipeBookData", f);

    let mut f: Vec<FieldDescriptor> = Vec::new();
    pf(&mut f, "name", WireType::Utf8);
    bind(v, "NameItem", f);

    let mut f: Vec<FieldDescriptor> = Vec::new();
    pf(&mut f, "result", WireType::VarInt);
    bind(v, "ResourcePackStatus", f);

    let mut f: Vec<FieldDescriptor> = Vec::new();
    pf(&mut f, "tab_id", WireType::Optional(Box::new(WireType::Utf8)));
    bind(v, "AdvancementTab", f);

    let mut f: Vec<FieldDescriptor> = Vec::new();
    pf(&mut f, "selected_slot", WireType::VarInt);
    bind(v, "SelectTrade", f);

    proof {
        assert(bindings_model(v@) =~= bindings_model(old(v)@) + play_table_d());
    }
}

/// Bindings 32 through 39 of the play table.
pub open spec fn play_table_e() -> Seq<BindingModel> {
    Seq::<BindingModel>::empty()
        .push(
            (BindingModel { id: 32, schema: (SchemaModel { name: "SetBeaconEffect"@, fields: Seq::<FieldModel>::empty().push((FieldModel { name: "primary_effect"@, ty: WtModel::VarInt })).push((FieldModel { name: "secondary_effect"@, ty: WtModel::VarInt })) }) }),
        )
        .push(
            (BindingModel { id: 33, schema: (SchemaModel { name: "HeldItemChange"@, fields: Seq::<FieldModel>::empty().push((FieldModel { name: "slot"@, ty: WtModel::U16 })) }) }),
        )
        .push(
            (BindingModel { id: 34, schema: (SchemaModel { name: "UpdateCommandBlock"@, fields: Seq::<FieldModel>::empty().push((FieldModel { name: "position"@, ty: WtModel::BlockPos })).push((FieldModel { name: "command"@, ty: WtModel::Utf8 })).push((FieldModel { name: "mode"@, ty: WtModel::VarInt })).push((FieldModel { name: "flags"@, ty: WtModel::U8 })) }) }),
        )
        .push(
            (BindingModel { id: 35, schema: (SchemaModel { name: "UpdateCommandBlockMinecart"@, fields: Seq::<FieldModel>::empty().push((FieldModel { name: "entity_id"@, ty: WtModel::VarInt })).push((FieldModel { name: "command"@, ty: WtModel::Utf8 })).push((FieldModel { name: "track_output"@, ty: WtModel::Bool })) }) }),
        )
        .push(
            (BindingModel { id: 36, schema: (SchemaModel { name: "UpdateJigsawBlock"@, fields: Seq::<FieldModel>::empty().push((FieldModel { name: "position"@, ty: WtModel::BlockPos })).push((FieldModel { name: "attchment_type"@, ty: WtModel::Utf8 })).push((FieldModel { name: "target_pool"@, ty: WtModel::Utf8 })).push((FieldModel { name: "final_state"@, ty: WtModel::Utf8 })) }) }),
        )
        .push(
            (BindingModel { id: 37, schema: (SchemaModel { name: "UpdateStructureBlock"@, fields: Seq::<FieldModel>::empty().push((FieldModel { name: "position"@, ty: WtModel::BlockPos })).push((FieldModel { name: "action"@, ty: WtModel::VarInt })).push((FieldModel { name: "mode"@, ty: WtModel::VarInt })).push((FieldModel { name: "name"@, ty: WtModel::Utf8 })).push((FieldModel { name: "offset_x"@, ty: WtModel::I8 })).push((FieldModel { name: "offset_y"@, ty: WtModel::I8 })).push((FieldModel { name: "offset_z"@, ty: WtModel::I8 })).push((FieldModel { name: "size_x"@, ty: WtModel::I8 })).push((FieldModel { name: "size_y"@, ty: WtModel::I8 })).push((FieldModel { name: "size_z"@, ty: WtModel::I8 })).push((FieldModel { name: "mirror"@, ty: WtModel::VarInt })).push((FieldModel { name: "rotation"@, ty: WtModel::VarInt })).push((FieldModel { name: "metadata"@, ty: WtModel::Utf8 })).push((FieldModel { name: "integrity"@, ty: WtModel::F32Bits })).push((FieldModel { name: "seed"@, ty: WtModel::U64 })).push((FieldModel { name: "flags"@, ty: WtModel::U8 })) }) }),
        )
        .push(
            (BindingModel { id: 38, schema: (SchemaModel { name: "UpdateSign"@, fields: Seq::<FieldModel>::empty().push((FieldModel { name: "position"@, ty: WtModel::BlockPos })).push((FieldModel { name: "line_1"@, ty: WtModel::Utf8 })).push((FieldModel { name: "line_2"@, ty: WtModel::Utf8 })).push((FieldModel { name: "line_3"@, ty: WtModel::Utf8 })).push((FieldModel { name: "line_4"@, ty: WtModel::Utf8 })) }) }),
        )
        .push(
            (BindingModel { id: 39, schema: (SchemaModel { name: "Animation"@, fields: Seq::<FieldModel>::empty().push((FieldModel { name: "hand"@, ty: WtModel::VarInt })) }) }),
        )
}

/// Appends bindings 32 through 39.
#[verifier::rlimit(100)]
#[verifier::spinoff_prover]
fn bind_chunk_e(v: &mut Vec<PacketBinding>)
    requires
        old(v)@.len() == 32,
    ensures
        final(v)@.len() == 40,
        bindings_model(final(v)@) == bindings_model(old(v)@) + play_table_e(),
        forall|i: int| 0 <= i < 8 ==> (#[trigger] play_table_e()[i]).id == 32 + i,
        forall|i: int|
            0 <= i < 8 ==> schema_wf((#[trigger] play_table_e()[i]).schema),
{

    let mut f: Vec<FieldDescriptor> = Vec::new();
    pf(&mut f, "primary_effect", WireType::VarInt);
    pf(&mut f, "secondary_effect", WireType::VarInt);
    bind(v, "SetBeaconEffect", f);

    let mut f: Vec<FieldDescriptor> = Vec::new();
    pf(&mut f, "slot", WireType::U16);
    bind(v, "HeldItemChange", f);

    let mut f: Vec<FieldDescriptor> = Vec::new();
    pf(&mut f, "position", WireType::BlockPos);
    pf(&mut f, "command", WireType::Utf8);
    pf(&mut f, "mode", WireType::VarInt);
    pf(&mut f, "flags", WireType::U8);
    bind(v, "UpdateCommandBlock", f);

    let mut f: Vec<FieldDescriptor> = Vec::new();
    pf(&mut f, "entity_id", WireType::VarInt);
    pf(&mut f, "command", WireType::Utf8);
    pf(&mut f, "track_output", WireType::Bool);
    bind(v, "UpdateCommandBlockMinecart", f);

    let mut f: Vec<FieldDescriptor> = Vec::new();
    pf(&mut f, "position", WireType::BlockPos);
    pf(&mut f, "attchment_type", WireType::Utf8);
    pf(&mut f, "target_pool", WireType::Utf8);
    pf(&mut f, "final_state", WireType::Utf8);
    bind(v, "UpdateJigsawBlock", f);

    let mut f: Vec<FieldDescriptor> = Vec::new();
    pf(&mut f, "position", WireType::BlockPos);
    pf(&mut f, "action", WireType::VarInt);
    pf(&mut f, "mode", WireType::VarInt);
    pf(&mut f, "name", WireType::Utf8);
    pf(&mut f, "offset_x", WireType::I8);
    pf(&mut f, "offset_y", WireType::I8);
    pf(&mut f, "offset_z", WireType::I8);
    pf(&mut f, "size_x", WireType::I8);
    pf(&mut f, "size_y", WireType::I8);
    pf(&mut f, "size_z", WireType::I8);
    pf(&mut f, "mirror", WireType::VarInt);
    pf(&mut f, "rotation", WireType::VarInt);
    pf(&mut f, "metadata", WireType::Utf8);
    pf(&mut f, "integrity", WireType::F32Bits);
    pf(&mut f, "seed", WireType::U64);
    pf(&mut f, "flags", WireType::U8);
    bind(v, "UpdateStructureBlock", f);

    let mut f: Vec<FieldDescriptor> = Vec::new();
    pf(&mut f, "position", WireType::BlockPos);
    pf(&mut f, "line_1", WireType::Utf8);
    pf(&mut f, "line_2", WireType::Utf8);
    pf(&mut f, "line_3", WireType::Utf8);
    pf(&mut f, "line_4", WireType::Utf8);
    bind(v, "UpdateSign", f);

    let mut f: Vec<FieldDescriptor> = Vec::new();
    pf(&mut f, "hand", WireType::VarInt);
    bind(v, "Animation", f);

    proof {
        assert(bindings_model(v@) =~= bindings_model(old(v)@) + play_table_e());
    }
}

/// Bindings 40 through 42 of the play table.
pub open spec fn play_table_f() -> Seq<BindingModel> {
    Seq::<BindingModel>::empty()
        .push(
            (BindingModel { id: 40, schema: (SchemaModel { name: "Spectate"@, fields: Seq::<FieldModel>::empty().push((FieldModel { name: "target_player"@, ty: WtModel::UuidBits })) }) }),
        )
        .push(
            (BindingModel { id: 41, schema: (SchemaModel { name: "PlayerBlockPlacement"@, fields: Seq::<FieldModel>::empty().push((FieldModel { name: "hand"@, ty: WtModel::VarInt })).push((FieldModel { name: "position"@, ty: WtModel::BlockPos })).push((FieldModel { name: "face"@, ty: WtModel::VarInt })).push((FieldModel { name: "cursor_position_x"@, ty: WtModel::F32Bits })).push((FieldModel { name: "cursor_position_y"@, ty: WtModel::F32Bits })).push((FieldModel { name: "cursor_position_z"@, ty: WtModel::F32Bits })).push((FieldModel { name: "inside_block"@, ty: WtModel::Bool })) }) }),
        )
        .push(
            (BindingModel { id: 42, schema: (SchemaModel { name: "UseItem"@, fields: Seq::<FieldModel>::empty().push((FieldModel { name: "hand"@, ty: WtModel::VarInt })) }) }),
        )
}

/// Appends bindings 40 through 42.
#[verifier::rlimit(100)]
#[verifier::spinoff_prover]
fn bind_chunk_f(v: &mut Vec<PacketBinding>)
    requires
        old(v)@.len() == 40,
    ensures
        final(v)@.len() == 43,
        bindings_model(final(v)@) == bindings_model(old(v)@) + play_table_f(),
        forall|i: int| 0 <= i < 3 ==> (#[trigger] play_table_f()[i]).id == 40 + i,
        forall|i: int|
            0 <= i < 3 ==> schema_wf((#[trigger] play_table_f()[i]).schema),
{

    let mut f: Vec<FieldDescriptor> = Vec::new();
    pf(&mut f, "target_player", WireType::UuidBits);
    bind(v, "Spectate", f);

    let mut f: Vec<FieldDescriptor> = Vec::new();
    pf(&mut f, "hand", WireType::VarInt);
    pf(&mut f, "position", WireType::BlockPos);
    pf(&mut f, "face", WireType::VarInt);
    pf(&mut f, "cursor_position_x", WireType::F32Bits);
    pf(&mut f, "cursor_position_y", WireType::F32Bits);
    pf(&mut f, "cursor_position_z", WireType::F32Bits);
    pf(&mut f, "inside_block", WireType::Bool);
    bind(v, "PlayerBlockPlacement", f);

    let mut f: Vec<FieldDescriptor> = Vec::new();
    pf(&mut f, "hand", WireType::VarInt);
    bind(v, "UseItem", f);

    proof {
        assert(bindings_model(v@) =~= bindings_model(old(v)@) + play_table_f());
    }
}

/// The full play-phase client-to-server binding table.
pub open spec fn play_table() -> Seq<BindingModel> {
    play_table_a() + play_table_b() + play_table_c() + play_table_d() + play_table_e() + play_table_f()
}

/// Builds the play-phase client-to-server registry: one binding per packet,
/// identifiers assigned in declaration order, so the table is well formed.
#[verifier::rlimit(100)]
#[verifier::spinoff_prover]
pub fn client_play_registry() -> (r: PacketRegistry)
    ensures
        reg_wf(r@),
        r@.bindings == play_table(),
        r@.bindings.len() == 43,
        forall|i: int| 0 <= i < r@.bindings.len() ==> (#[trigger] r@.bindings[i]).id == i,
{
    let mut v: Vec<PacketBinding> = Vec::new();
    proof {
        assert(v@.len() == 0);
    }
    bind_chunk_a(&mut v);
    bind_chunk_b(&mut v);
    bind_chunk_c(&mut v);
    bind_chunk_d(&mut v);
    bind_chunk_e(&mut v);
    bind_chunk_f(&mut v);
    let r = PacketRegistry { bindings: v };
    proof {
        lemma_bindings_model_index(r.bindings@);
        assert(bindings_model(Seq::<PacketBinding>::empty()) == Seq::<BindingModel>::empty());
        assert(Seq::<BindingModel>::empty() + play_table_a() =~= play_table_a());
        assert(r@.bindings == play_table());
        assert forall|i: int| 0 <= i < r@.bindings.len() implies (#[trigger] r@.bindings[
            i]).id == i by {
            if 0 <= i < 8 {
                assert(play_table()[i] == play_table_a()[i - 0]);
            }
            if 8 <= i < 16 {
                assert(play_table()[i] == play_table_b()[i - 8]);
            }
            if 16 <= i < 24 {
                assert(play_table()[i] == play_table_c()[i - 16]);
            }
            if 24 <= i < 32 {
                assert(play_table()[i] == play_table_d()[i - 24]);
            }
            if 32 <= i < 40 {
                assert(play_table()[i] == play_table_e()[i - 32]);
            }
            if 40 <= i < 43 {
                assert(play_table()[i] == play_table_f()[i - 40]);
            }
        }
        assert forall|i: int| 0 <= i < r@.bindings.len() implies schema_wf(
            (#[trigger] r@.bindings[i]).schema,
        ) by {
            if 0 <= i < 8 {
                assert(play_table()[i] == play_table_a()[i - 0]);
            }
            if 8 <= i < 16 {
                assert(play_table()[i] == play_table_b()[i - 8]);
            }
            if 16 <= i < 24 {
                assert(play_table()[i] == play_table_c()[i - 16]);
            }
            if 24 <= i < 32 {
                assert(play_table()[i] == play_table_d()[i - 24]);
            }
            if 32 <= i < 40 {
                assert(play_table()[i] == play_table_e()[i - 32]);
            }
            if 40 <= i < 43 {
                assert(play_table()[i] == play_table_f()[i - 40]);
            }
        }
        assert(reg_wf(r@));
    }
    r
}

} // verus!
