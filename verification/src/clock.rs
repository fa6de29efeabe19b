//! The clocks that stamp payloads and time polls.
use vstd::prelude::*;

verus! {

/// A point in time of the monotonic clock.
#[verifier::external_type_specification]
#[verifier::external_body]
pub struct ExInstant(std::time::Instant);

/// `iggy::prelude::IggyTimestamp::now` followed by `as_micros`: the wall clock in
/// microseconds since the Unix epoch. Nothing is claimed of the result, which depends on the
/// time alone. The call panics on a machine whose clock stands before the epoch.
#[verifier::external_body]
pub(crate) fn wall_clock_micros() -> (us: u64) {
    iggy::prelude::IggyTimestamp::now().as_micros()
}

/// `std::time::Instant::now`: the present instant. Nothing is claimed of it.
#[verifier::external_body]
pub(crate) fn instant_now() -> (i: std::time::Instant) {
    std::time::Instant::now()
}

/// `std::time::Instant::elapsed`: the time since the instant `i`. Nothing is claimed of it, as
/// it depends on the time of the call.
#[verifier::external_body]
fn time_since(i: &std::time::Instant) -> (d: std::time::Duration) {
    i.elapsed()
}

/// `std::time::Duration::as_micros`: the whole microseconds of a duration. A duration is opaque
/// here, so nothing is claimed of the number.
#[verifier::external_body]
fn whole_micros(d: &std::time::Duration) -> (us: u128) {
    d.as_micros()
}

/// The time since the instant `i`, in whole microseconds, as `kept_micros` keeps it. Nothing is
/// claimed of it, as it depends on the time of the call.
pub(crate) fn micros_since(i: &std::time::Instant) -> (us: u64) {
    kept_micros(whole_micros(&time_since(i)))
}

/// What is kept of a number of microseconds: its lowest 64 bits.
pub fn kept_micros(micros: u128) -> (us: u64)
    ensures
        us == micros % 0x1_0000_0000_0000_0000,
{
    (micros % 0x1_0000_0000_0000_0000) as u64
}

} // verus!
