//! The one capability the relay takes from the host clock.

use vstd::prelude::*;

verus! {

/// Relies on chrono::Utc::now and chrono::DateTime::timestamp for the
/// current instant as whole seconds since the Unix epoch. Nothing is
/// promised of the value: a caller states what holds of every outcome.
#[verifier::external_body]
pub(crate) fn now_unix_seconds() -> i64 {
    chrono::Utc::now().timestamp()
}

} // verus!
