//! Game-specific payloads travel through the runtime as JSON values. The
//! runtime never looks inside one; the type is declared so values can be
//! carried and handed back to plug-ins and clients.

use vstd::prelude::*;

verus! {

#[verifier::external_type_specification]
#[verifier::external_body]
pub struct ExValue(serde_json::Value);

/// Relies on the `Clone` impl of `serde_json::Value`: a deep copy, which is
/// structurally — and so here abstractly — equal to the original.
pub assume_specification[ <serde_json::Value as Clone>::clone ](v: &serde_json::Value) -> (res:
    serde_json::Value)
    ensures
        res == *v,
;

/// Relies on `serde_json::Value::Null` being a plain unit constructor.
#[verifier::external_body]
pub fn json_null() -> serde_json::Value {
    serde_json::Value::Null
}

} // verus!
