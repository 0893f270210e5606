use vstd::prelude::*;

verus! {

/// Relies on `chrono::Utc::now` and `DateTime::timestamp`: the current wall-clock
/// time in whole seconds since the Unix epoch. Nothing is promised of the value,
/// which depends on the machine's clock (`Utc::now` panics only when that clock
/// reads earlier than the epoch).
#[verifier::external_body]
pub(crate) fn utc_now_seconds() -> (r: i64) {
    chrono::Utc::now().timestamp()
}

} // verus!
