//! Declares serde_json's value type so that item metadata can be
//! carried through the library. The value is opaque to the logic here:
//! it is stored and handed back, never inspected.

use vstd::prelude::*;

verus! {

#[verifier::external_type_specification]
#[verifier::external_body]
pub struct ExValue(serde_json::Value);

/// Relies on serde_json::Value::clone, a derived clone: the copy equals
/// the original.
pub assume_specification[ <serde_json::Value as Clone>::clone ](v: &serde_json::Value) -> (res:
    serde_json::Value)
    ensures
        res == *v,
;

} // verus!
