use vstd::prelude::*;

verus! {

/// The error that `serde_json` reports. Nothing is known of what it holds.
#[verifier::external_type_specification]
#[verifier::external_body]
pub struct ExJsonError(serde_json::Error);

/// The error that an operation on a `worker_kv` store reports. Nothing is
/// known of what it holds.
#[verifier::external_type_specification]
#[verifier::external_body]
pub struct ExKvError(worker_kv::KvError);

} // verus!
