//! Declaration of the collaborating JSON library's value type.

use vstd::prelude::*;

verus! {

/// The JSON value type of the collaborating library; opaque here, only
/// carried between its parser and its printer.
#[verifier::external_type_specification]
#[verifier::external_body]
pub struct ExValue(serde_json::Value);

} // verus!
