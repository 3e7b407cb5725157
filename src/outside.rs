use vstd::prelude::*;

verus! {

/// Relies on uuid::Uuid::new_v4 and Uuid::as_u128: a random version-4 UUID as
/// a 128-bit integer. Nothing is known of its value.
#[verifier::external_body]
pub(crate) fn random_id() -> (r: u128) {
    uuid::Uuid::new_v4().as_u128()
}

/// Relies on std::time::SystemTime::elapsed, taken from the Unix epoch: the
/// milliseconds since then, or `None` where the clock stands before it. The
/// value depends on the clock alone.
#[verifier::external_body]
pub(crate) fn millis_since_epoch() -> (r: Option<u128>) {
    std::time::UNIX_EPOCH.elapsed().ok().map(|d| d.as_millis())
}

} // verus!
