//! Types of `wasmi_core` that the library carries through its logic.

use vstd::prelude::*;

verus! {

/// `wasmi_core::ValueType`: the type of a Wasm value. Its variants carry no
/// data, so Verus reads them as they are declared.
#[verifier::external_type_specification]
pub struct ExValueType(wasmi_core::ValueType);

/// `wasmi_core::TrapCode`: the reason for a trap, carried as it is.
#[verifier::external_type_specification]
#[verifier::external_body]
pub struct ExTrapCode(wasmi_core::TrapCode);

} // verus!
