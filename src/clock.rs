use vstd::prelude::*;

verus! {

/// Relies on chrono's `From<SystemTime> for DateTime<Utc>` and
/// `DateTime::timestamp`: the system clock as whole seconds since the Unix
/// epoch, negative for a clock set before 1970 (where `Utc::now` would
/// panic). Nothing is promised of its value.
#[verifier::external_body]
pub fn now_secs() -> (r: i64) {
    chrono::DateTime::<chrono::Utc>::from(std::time::SystemTime::now()).timestamp()
}

} // verus!
