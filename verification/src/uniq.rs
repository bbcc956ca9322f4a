//! Fresh identifier generation.

use vstd::prelude::*;

verus! {

/// Relies on uuid's `Uuid::new_v4` and its `to_string`: a freshly drawn
/// random identifier.  The value depends on the generator's randomness,
/// so nothing is promised of it.
#[verifier::external_body]
pub(crate) fn fresh_uuid() -> String {
    uuid::Uuid::new_v4().to_string()
}

} // verus!
