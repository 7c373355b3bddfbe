//! The clock of the host.

use vstd::prelude::*;

verus! {

/// `ic_cdk::api::time`: the time of the host, in nanoseconds since 1970.
/// Nothing is claimed of the number: the host decides it. Only the host of a
/// canister has this clock; elsewhere the call stops the process.
#[verifier::external_body]
pub(crate) fn host_time() -> u64 {
    ic_cdk::api::time()
}

} // verus!
