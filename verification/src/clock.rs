//! What this crate takes on trust about the standard library's clock.
//!
//! An [`Instant`] is opaque: it can be compared with another instant and
//! nothing else. The contracts below give it a position on a time line so
//! that the rest of the crate can reason in integers.

use std::time::{Duration, Instant};
use vstd::prelude::*;

verus! {

/// `std::time::Instant`, carried through verified code as an opaque value.
#[verifier::external_type_specification]
#[verifier::external_body]
pub struct ExInstant(std::time::Instant);

/// Where an instant lies on its clock's time line, in nanoseconds from the
/// clock's own origin. Only differences between two instants are ever
/// observable, through `Instant::saturating_duration_since`.
pub uninterp spec fn instant_nanos(t: Instant) -> int;

/// The whole length of a duration in nanoseconds: the number that
/// `Duration::as_nanos` returns.
pub uninterp spec fn duration_nanos(d: Duration) -> nat;

/// `Instant::now` reads the monotonic clock. Nothing is claimed of the
/// reading.
pub assume_specification[ Instant::now ]() -> (now: Instant);

/// `Instant::saturating_duration_since` returns the time elapsed from
/// `earlier` to `later`, or a zero duration if `earlier` is in fact the later
/// of the two. It never panics.
pub assume_specification[ Instant::saturating_duration_since ](
    later: &Instant,
    earlier: Instant,
) -> (elapsed: Duration)
    ensures
        duration_nanos(elapsed) == if instant_nanos(*later) >= instant_nanos(earlier) {
            instant_nanos(*later) - instant_nanos(earlier)
        } else {
            0
        },
;

/// `Duration::as_nanos` returns the total number of nanoseconds in the
/// duration.
pub assume_specification[ Duration::as_nanos ](d: &Duration) -> (nanos: u128)
    ensures
        nanos == duration_nanos(*d),
;

} // verus!
