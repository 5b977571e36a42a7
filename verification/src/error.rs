//! The codec error taxonomy.
//!
//! Every decode failure is fatal to the call that produced it and is returned
//! to the caller unchanged; field-level failures are annotated with the
//! offending field's name and the enclosing type's name, keeping the root
//! cause inspectable.

use vstd::prelude::*;

verus! {

/// The root cause of a codec failure.
#[derive(Clone, Copy, Debug, PartialEq, Eq)]
pub enum ErrorKind {
    /// Fewer bytes were available than a wire type or a declared length requires.
    TruncatedInput,
    /// A variable-length integer carried a continuation flag into a sixth group.
    CorruptVarInt,
    /// A string's bytes are not valid UTF-8.
    InvalidUtf8,
    /// A well-formed discriminant matched no variant; carries the raw value.
    UnknownVariant(i32),
    /// A well-formed packet identifier is not bound in the registry.
    UnknownPacketId(i32),
    /// A value is too large for its length prefix; reported by encoding only.
    OversizedValue,
}

/// One annotation added while a failure propagated: the enclosing type's
/// name and the field being read when the failure arose (the field name is
/// empty when the discriminant itself was being read).
#[derive(Clone, Debug)]
pub struct Trace {
    pub owner: String,
    pub field: String,
}

/// The mathematical model of a [`Trace`].
pub ghost struct TraceModel {
    pub owner: Seq<char>,
    pub field: Seq<char>,
}

impl View for Trace {
    type V = TraceModel;

    open spec fn view(&self) -> TraceModel {
        (TraceModel { owner: self.owner@, field: self.field@ })
    }
}

/// A codec failure: its root cause plus the annotations gathered while it
/// propagated, innermost first.
#[derive(Clone, Debug)]
pub struct CodecError {
    pub kind: ErrorKind,
    pub trail: Vec<Trace>,
}

impl CodecError {
    /// A fresh, unannotated failure.
    pub fn new(kind: ErrorKind) -> (r: CodecError)
        ensures
            r.kind == kind,
            r.trail@.len() == 0,
    {
        CodecError { kind, trail: Vec::new() }
    }

    /// The model of the annotation trail, innermost first.
    pub open spec fn trail_model(&self) -> Seq<TraceModel> {
        self.trail@.map(|i: int, t: Trace| t@)
    }

    /// Annotates a propagating failure with the enclosing type and field names.
    pub fn annotate(&mut self, owner: &String, field: &String)
        ensures
            final(self).kind == old(self).kind,
            final(self).trail_model() == old(self).trail_model().push(
                (TraceModel { owner: owner@, field: field@ }),
            ),
    {
        let t = Trace { owner: owner.clone(), field: field.clone() };
        let ghost before = self.trail@;
        self.trail.push(t);
        proof {
            assert(self.trail_model() =~= before.map(|i: int, t: Trace| t@).push(t@));
        }
    }
}

} // verus!
