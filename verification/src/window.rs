//! The sliding window as arithmetic.
//!
//! Here a timestamp is an integer number of nanoseconds and the buffer is a
//! sequence of them, oldest first. The functions say what a sweep removes and
//! what an admission check answers; the proofs say what follows for every
//! buffer and every time.

use vstd::prelude::*;

verus! {

/// A timestamp is stale at `now` when it lies strictly more than `period`
/// before it.
pub open spec fn stale(stamp: int, now: int, period: nat) -> bool {
    stamp < now - period
}

/// No timestamp is later than the one behind it.
pub open spec fn chronological(stamps: Seq<int>) -> bool {
    forall|i: int, j: int| 0 <= i <= j < stamps.len() ==> stamps[i] <= stamps[j]
}

/// How many timestamps a sweep at `now` takes from the front: it goes on as
/// long as the oldest one is stale and stops at the first that is not.
pub open spec fn stale_prefix(stamps: Seq<int>, now: int, period: nat) -> nat
    decreases stamps.len(),
{
    if stamps.len() > 0 && stale(stamps[0], now, period) {
        1 + stale_prefix(stamps.skip(1), now, period)
    } else {
        0
    }
}

/// What a sweep at `now` leaves in the buffer.
pub open spec fn swept(stamps: Seq<int>, now: int, period: nat) -> Seq<int> {
    stamps.skip(stale_prefix(stamps, now, period) as int)
}

/// Whether an event at `now` is admitted: there is room as things stand, or a
/// sweep makes room.
pub open spec fn admits(stamps: Seq<int>, count: nat, now: int, period: nat) -> bool {
    stamps.len() < count || stale_prefix(stamps, now, period) > 0
}

/// The buffer after an admission check at `now`. With room to spare the
/// timestamp is appended and nothing is swept. A full buffer is swept first,
/// and the timestamp is appended only if that made room.
pub open spec fn after_check(stamps: Seq<int>, count: nat, now: int, period: nat) -> Seq<int> {
    if stamps.len() < count {
        stamps.push(now)
    } else if stale_prefix(stamps, now, period) > 0 {
        swept(stamps, now, period).push(now)
    } else {
        stamps
    }
}

/// The buffer after one admission check for each of `times`, in order.
pub open spec fn after_checks(stamps: Seq<int>, count: nat, times: Seq<int>, period: nat) -> Seq<
    int,
>
    decreases times.len(),
{
    if times.len() == 0 {
        stamps
    } else {
        after_check(
            after_checks(stamps, count, times.drop_last(), period),
            count,
            times.last(),
            period,
        )
    }
}

/// The stale prefix is the longest run of stale timestamps at the front: it
/// fits in the buffer, everything in it is stale, and the timestamp that
/// follows it, if there is one, is not.
pub proof fn lemma_stale_prefix(stamps: Seq<int>, now: int, period: nat)
    ensures
        stale_prefix(stamps, now, period) <= stamps.len(),
        forall|i: int|
            0 <= i < stale_prefix(stamps, now, period) ==> stale(#[trigger] stamps[i], now, period),
        stale_prefix(stamps, now, period) < stamps.len() ==> !stale(
            stamps[stale_prefix(stamps, now, period) as int],
            now,
            period,
        ),
    decreases stamps.len(),
{
    if stamps.len() > 0 && stale(stamps[0], now, period) {
        let rest = stamps.skip(1);
        lemma_stale_prefix(rest, now, period);
        let k = stale_prefix(rest, now, period) as int;
        assert forall|i: int| 0 <= i < k + 1 implies stale(#[trigger] stamps[i], now, period) by {
            if i > 0 {
                assert(stamps[i] == rest[i - 1]);
            }
        }
        if k + 1 < stamps.len() {
            assert(stamps[k + 1] == rest[k]);
        }
    }
}

/// Any run of stale timestamps at the front that stops at a fresh one, or at
/// the end of the buffer, is the stale prefix.
pub proof fn lemma_stale_prefix_unique(stamps: Seq<int>, now: int, period: nat, k: nat)
    requires
        k <= stamps.len(),
        forall|i: int| 0 <= i < k ==> stale(#[trigger] stamps[i], now, period),
        k < stamps.len() ==> !stale(stamps[k as int], now, period),
    ensures
        stale_prefix(stamps, now, period) == k,
    decreases stamps.len(),
{
    if k > 0 {
        let rest = stamps.skip(1);
        assert(stale(stamps[0], now, period));
        assert forall|i: int| 0 <= i < k - 1 implies stale(#[trigger] rest[i], now, period) by {
            assert(rest[i] == stamps[i + 1]);
        }
        if k < stamps.len() {
            assert(rest[k - 1] == stamps[k as int]);
        }
        lemma_stale_prefix_unique(rest, now, period, (k - 1) as nat);
    }
}

/// A sweep evicts only what is stale, whatever the order of the buffer. On a
/// chronological buffer it also evicts all that is stale: nothing that stays
/// is older than `period` at `now`, and what stays is chronological still.
pub proof fn lemma_sweep_is_exact(stamps: Seq<int>, now: int, period: nat)
    ensures
        forall|i: int|
            0 <= i < stale_prefix(stamps, now, period) ==> stale(#[trigger] stamps[i], now, period),
        chronological(stamps) ==> forall|j: int|
            0 <= j < swept(stamps, now, period).len() ==> !stale(
                #[trigger] swept(stamps, now, period)[j],
                now,
                period,
            ),
        chronological(stamps) ==> chronological(swept(stamps, now, period)),
{
    lemma_stale_prefix(stamps, now, period);
    let k = stale_prefix(stamps, now, period) as int;
    let kept = swept(stamps, now, period);
    if chronological(stamps) {
        assert forall|j: int| 0 <= j < kept.len() implies !stale(#[trigger] kept[j], now, period) by {
            assert(kept[j] == stamps[k + j]);
            assert(stamps[k] <= stamps[k + j]);
        }
        assert forall|i: int, j: int| 0 <= i <= j < kept.len() implies kept[i] <= kept[j] by {
            assert(kept[i] == stamps[k + i]);
            assert(kept[j] == stamps[k + j]);
        }
    }
}

/// Sweeping twice at the same time is sweeping once: the second sweep finds
/// nothing to evict.
pub proof fn lemma_sweep_is_idempotent(stamps: Seq<int>, now: int, period: nat)
    ensures
        stale_prefix(swept(stamps, now, period), now, period) == 0,
        swept(swept(stamps, now, period), now, period) == swept(stamps, now, period),
{
    lemma_stale_prefix(stamps, now, period);
    let k = stale_prefix(stamps, now, period) as int;
    let kept = swept(stamps, now, period);
    if kept.len() > 0 {
        assert(kept[0] == stamps[k]);
    }
    assert(kept.skip(0) =~= kept);
}

/// A sweep at a later time evicts at least as much as one at an earlier time.
pub proof fn lemma_sweep_is_monotonic(stamps: Seq<int>, earlier: int, later: int, period: nat)
    requires
        earlier <= later,
    ensures
        stale_prefix(stamps, earlier, period) <= stale_prefix(stamps, later, period),
    decreases stamps.len(),
{
    if stamps.len() > 0 && stale(stamps[0], earlier, period) {
        lemma_sweep_is_monotonic(stamps.skip(1), earlier, later, period);
    }
}

/// An admission check never leaves more than `count` timestamps in a buffer
/// that held no more than `count`.
pub proof fn lemma_check_keeps_bound(stamps: Seq<int>, count: nat, now: int, period: nat)
    requires
        stamps.len() <= count,
    ensures
        after_check(stamps, count, now, period).len() <= count,
{
    lemma_stale_prefix(stamps, now, period);
}

/// An admitted timestamp is recorded as the newest; what lies before it is the
/// old buffer, less what a sweep of a full buffer evicted.
pub proof fn lemma_admission_records(stamps: Seq<int>, count: nat, now: int, period: nat)
    requires
        stamps.len() <= count,
        admits(stamps, count, now, period),
    ensures
        after_check(stamps, count, now, period).len() > 0,
        after_check(stamps, count, now, period).last() == now,
        after_check(stamps, count, now, period).drop_last() == if stamps.len() < count {
            stamps
        } else {
            swept(stamps, now, period)
        },
{
    lemma_stale_prefix(stamps, now, period);
    if stamps.len() < count {
        assert(stamps.push(now).drop_last() =~= stamps);
    } else {
        let kept = swept(stamps, now, period);
        assert(kept.push(now).drop_last() =~= kept);
    }
}

/// A denial changes nothing: the buffer holds exactly `count` timestamps
/// before and after, and they are the same ones.
pub proof fn lemma_denial_changes_nothing(stamps: Seq<int>, count: nat, now: int, period: nat)
    requires
        stamps.len() <= count,
        !admits(stamps, count, now, period),
    ensures
        after_check(stamps, count, now, period) == stamps,
        stamps.len() == count,
        swept(stamps, now, period) == stamps,
{
    assert(stamps.skip(0) =~= stamps);
}

/// A denial means that the window is full: on a chronological buffer every
/// one of the `count` recorded timestamps is within `period` of `now`.
pub proof fn lemma_denial_means_full_window(stamps: Seq<int>, count: nat, now: int, period: nat)
    requires
        stamps.len() <= count,
        chronological(stamps),
        !admits(stamps, count, now, period),
    ensures
        stamps.len() == count,
        forall|i: int| 0 <= i < stamps.len() ==> !stale(#[trigger] stamps[i], now, period),
{
    assert forall|i: int| 0 <= i < stamps.len() implies !stale(#[trigger] stamps[i], now, period) by {
        assert(stamps[0] <= stamps[i]);
    }
}

/// Time that does not run backwards keeps the buffer in order: if the buffer
/// is chronological and `now` is no earlier than its newest timestamp, the
/// same holds after the check.
pub proof fn lemma_check_keeps_order(stamps: Seq<int>, count: nat, now: int, period: nat)
    requires
        chronological(stamps),
        stamps.len() > 0 ==> stamps.last() <= now,
    ensures
        chronological(after_check(stamps, count, now, period)),
        after_check(stamps, count, now, period).len() > 0 ==> after_check(
            stamps,
            count,
            now,
            period,
        ).last() <= now,
{
    lemma_stale_prefix(stamps, now, period);
    lemma_sweep_is_exact(stamps, now, period);
    let k = stale_prefix(stamps, now, period) as int;
    let kept = swept(stamps, now, period);
    let next = after_check(stamps, count, now, period);
    assert forall|j: int| 0 <= j < kept.len() implies #[trigger] kept[j] <= now by {
        assert(kept[j] == stamps[k + j]);
        assert(stamps[k + j] <= stamps.last());
    }
    assert forall|j: int| 0 <= j < stamps.len() implies #[trigger] stamps[j] <= now by {
        assert(stamps[j] <= stamps.last());
    }
    assert forall|i: int, j: int| 0 <= i <= j < next.len() implies next[i] <= next[j] by {
        if stamps.len() < count {
            if j < stamps.len() {
                assert(next[i] == stamps[i] && next[j] == stamps[j]);
            } else if i < stamps.len() {
                assert(next[i] == stamps[i]);
            }
        } else if k > 0 {
            if j < kept.len() {
                assert(next[i] == kept[i] && next[j] == kept[j]);
            } else if i < kept.len() {
                assert(next[i] == kept[i]);
            }
        }
    }
}

/// While there is room every check is admitted and recorded: after fewer
/// checks than `count` on an empty buffer, the buffer holds their times.
pub proof fn lemma_room_admits_all(count: nat, times: Seq<int>, period: nat)
    requires
        times.len() <= count,
    ensures
        after_checks(Seq::empty(), count, times, period) == times,
    decreases times.len(),
{
    if times.len() > 0 {
        lemma_room_admits_all(count, times.drop_last(), period);
        assert(times.drop_last().push(times.last()) =~= times);
    }
}

/// A limit of `count` events holds a burst to `count`: of `count + 1` checks
/// on a fresh limiter, at times that all lie within one `period` of each
/// other, the first `count` are admitted and the last is denied.
pub proof fn lemma_burst_is_capped(count: nat, times: Seq<int>, period: nat)
    requires
        count >= 1,
        times.len() == count + 1,
        forall|i: int, j: int|
            0 <= i < times.len() && 0 <= j < times.len() ==> times[i] - times[j] <= period,
    ensures
        forall|n: int|
            0 <= n < count ==> admits(
                #[trigger] after_checks(Seq::empty(), count, times.take(n), period),
                count,
                times[n],
                period,
            ),
        !admits(
            after_checks(Seq::empty(), count, times.take(count as int), period),
            count,
            times[count as int],
            period,
        ),
        after_checks(Seq::empty(), count, times, period) == times.take(count as int),
{
    assert forall|n: int| 0 <= n < count implies admits(
        #[trigger] after_checks(Seq::empty(), count, times.take(n), period),
        count,
        times[n],
        period,
    ) by {
        lemma_room_admits_all(count, times.take(n), period);
    }
    let first = times.take(count as int);
    lemma_room_admits_all(count, first, period);
    assert(first[0] == times[0]);
    assert(times[count as int] - times[0] <= period);
    assert(times.drop_last() =~= first);
}

} // verus!
