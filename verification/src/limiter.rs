//! The limiter: a limit, and the times of the events admitted under it that
//! still count.

use crate::clock::{duration_nanos, instant_nanos};
use crate::limit::RateLimit;
use crate::ring::BoundedBuffer;
use crate::window::{admits, after_check, lemma_stale_prefix, stale, stale_prefix, swept};
use std::time::Instant;
use vstd::prelude::*;

verus! {

/// Enforces a [`RateLimit`] by keeping the times of the admitted events in a
/// buffer that holds no more than [`RateLimit::count`] of them.
pub struct RateLimiter {
    pub limit: RateLimit,
    readings: BoundedBuffer<Instant>,
}

impl View for RateLimiter {
    type V = Seq<int>;

    /// The recorded times, oldest first, each as its place on the clock's
    /// time line.
    closed spec fn view(&self) -> Seq<int> {
        self.readings@.map_values(|t: Instant| instant_nanos(t))
    }
}

impl RateLimiter {
    /// The limit that is enforced.
    pub closed spec fn spec_limit(&self) -> RateLimit {
        self.limit
    }

    /// The buffer is sized to the limit.
    pub closed spec fn sized_to_limit(&self) -> bool {
        &&& self.readings.well_formed()
        &&& self.readings.spec_capacity() == self.limit.count
    }

    /// What every operation expects and leaves behind: a limit that admits
    /// something, and no more recorded times than it admits.
    pub open spec fn well_formed(&self) -> bool {
        &&& self.spec_limit().well_formed()
        &&& self.sized_to_limit()
        &&& self@.len() <= self.count()
    }

    /// The most events the limit admits in one period.
    pub open spec fn count(&self) -> nat {
        self.spec_limit().count as nat
    }

    /// The length of the limit's period in nanoseconds.
    pub open spec fn period(&self) -> nat {
        duration_nanos(self.spec_limit().period)
    }

    /// The limit that is enforced.
    #[verifier::when_used_as_spec(spec_limit)]
    pub fn limit(&self) -> (limit: RateLimit)
        ensures
            limit == self.spec_limit(),
    {
        self.limit
    }

    /// Creates a limiter that allocates as it records. Best where the limiter
    /// may go unused.
    pub fn new(limit: RateLimit) -> (limiter: RateLimiter)
        requires
            limit.well_formed(),
        ensures
            limiter.well_formed(),
            limiter.spec_limit() == limit,
            limiter@ == Seq::<int>::empty(),
    {
        let limiter = RateLimiter { limit, readings: BoundedBuffer::new(limit.count) };
        assert(limiter@ =~= Seq::<int>::empty());
        limiter
    }

    /// Creates a limiter with room for `limit.count` times reserved at once.
    /// Best where the limiter will be busy: filling it then moves nothing.
    pub fn new_preallocated(limit: RateLimit) -> (limiter: RateLimiter)
        requires
            limit.well_formed(),
        ensures
            limiter.well_formed(),
            limiter.spec_limit() == limit,
            limiter@ == Seq::<int>::empty(),
    {
        let limiter = RateLimiter { limit, readings: BoundedBuffer::new_preallocated(limit.count) };
        assert(limiter@ =~= Seq::<int>::empty());
        limiter
    }

    /// Checks whether the event may happen now, by the monotonic clock. An
    /// admitted event is recorded at the time that was read.
    ///
    /// The answer is that of [`RateLimiter::check_at`] for some reading of the
    /// clock. While there is room the event is admitted whatever the clock
    /// says.
    pub fn check(&mut self) -> (permitted: bool)
        requires
            old(self).well_formed(),
        ensures
            final(self).well_formed(),
            final(self).spec_limit() == old(self).spec_limit(),
            exists|now: Instant|
                {
                    &&& permitted == admits(
                        old(self)@,
                        old(self).count(),
                        #[trigger] instant_nanos(now),
                        old(self).period(),
                    )
                    &&& final(self)@ == after_check(
                        old(self)@,
                        old(self).count(),
                        instant_nanos(now),
                        old(self).period(),
                    )
                },
            old(self)@.len() < old(self).count() ==> permitted,
            !permitted ==> final(self)@ == old(self)@,
    {
        let now = Instant::now();
        let permitted = self.check_at(now);
        assert(permitted == admits(
            old(self)@,
            old(self).count(),
            instant_nanos(now),
            old(self).period(),
        ));
        permitted
    }

    /// Checks whether the event may happen at `instant`, and records it if so.
    ///
    /// With room in the buffer the event is admitted as it stands. A full
    /// buffer is swept first; the event is admitted if that evicted anything
    /// and denied if not. What a sweep evicted stays evicted either way, but a
    /// denial follows only a sweep that evicted nothing, so a denial leaves
    /// the limiter as it was.
    ///
    /// Do not go backwards in time: the buffer is swept from the front, on
    /// the understanding that the oldest time is at the front.
    pub fn check_at(&mut self, instant: Instant) -> (permitted: bool)
        requires
            old(self).well_formed(),
        ensures
            final(self).well_formed(),
            final(self).spec_limit() == old(self).spec_limit(),
            permitted == admits(
                old(self)@,
                old(self).count(),
                instant_nanos(instant),
                old(self).period(),
            ),
            final(self)@ == after_check(
                old(self)@,
                old(self).count(),
                instant_nanos(instant),
                old(self).period(),
            ),
            !permitted ==> final(self)@ == old(self)@ && old(self)@.len() == old(self).count(),
            permitted ==> final(self)@.len() > 0 && final(self)@.last() == instant_nanos(instant),
    {
        if self.readings.push(instant).is_ok() {
            assert(self@ =~= old(self)@.push(instant_nanos(instant)));
            return true;
        }
        let reclaimed = self.sweep(instant);
        if reclaimed {
            proof {
                lemma_stale_prefix(old(self)@, instant_nanos(instant), old(self).period());
            }
            let ghost kept = self@;
            let _ = self.readings.push(instant);
            assert(self@ =~= kept.push(instant_nanos(instant)));
        }
        reclaimed
    }

    /// Evicts the recorded times that lie more than the limit's period before
    /// `instant`, oldest first, up to the first that does not. Returns whether
    /// anything was evicted.
    pub fn sweep(&mut self, instant: Instant) -> (reclaimed: bool)
        requires
            old(self).well_formed(),
        ensures
            final(self).well_formed(),
            final(self).spec_limit() == old(self).spec_limit(),
            reclaimed == (stale_prefix(old(self)@, instant_nanos(instant), old(self).period())
                > 0),
            final(self)@ == swept(old(self)@, instant_nanos(instant), old(self).period()),
            !reclaimed ==> final(self)@ == old(self)@,
    {
        let period: u128 = self.limit.period.as_nanos();
        let ghost now = instant_nanos(instant);
        let ghost window = old(self).period();
        let mut reclaimed = false;
        loop
            invariant
                self.well_formed(),
                self.spec_limit() == old(self).spec_limit(),
                period == window,
                now == instant_nanos(instant),
                window == old(self).period(),
                reclaimed == (self@.len() < old(self)@.len()),
                self@.len() <= old(self)@.len(),
                self@ == old(self)@.skip(old(self)@.len() - self@.len()),
                stale_prefix(old(self)@, now, window) == (old(self)@.len() - self@.len())
                    + stale_prefix(self@, now, window),
            ensures
                self.well_formed(),
                self.spec_limit() == old(self).spec_limit(),
                reclaimed == (stale_prefix(old(self)@, now, window) > 0),
                self@ == swept(old(self)@, now, window),
            decreases self@.len(),
        {
            let ghost before = self@;
            let stale_front = match self.readings.peek() {
                Some(front) => instant.saturating_duration_since(*front).as_nanos() > period,
                None => false,
            };
            assert(stale_front == (before.len() > 0 && stale(before[0], now, window)));
            if !stale_front {
                break;
            }
            self.readings.pop();
            reclaimed = true;
            assert(self@ =~= before.skip(1));
            assert(self@ =~= old(self)@.skip(old(self)@.len() - self@.len()));
        }
        reclaimed
    }
}

} // verus!
