//! The protocol version token threaded through every codec call.
//!
//! Codecs may branch on it so that a wire type's representation can change
//! between protocol revisions; the schemas defined so far do not, but the
//! parameter is kept in every signature as a forward-compatibility seam.

use vstd::prelude::*;

verus! {

/// An opaque, ordered protocol version token (the negotiated protocol number).
#[derive(Clone, Copy, Debug, PartialEq, Eq, Structural)]
pub struct ProtocolVersion(pub u32);

} // verus!
