//! What a tracker holds, told from the timestamps it was fed.
//!
//! The tracker itself keeps a ring and overwrites the oldest slot. This
//! module states what that amounts to: after any run of timestamps the
//! average is the mean of the most recent accepted frequencies.

use vstd::prelude::*;
use vstd::arithmetic::div_mod::{
    lemma_fundamental_div_mod, lemma_mod_sub_multiples_vanish, lemma_small_mod,
};
use crate::tracker::{
    consistent, fresh, instantaneous_hz, lemma_observe_keeps_consistent, mean, observe_model,
    populated, total, TrackerModel,
};

verus! {

/// State after the events with the given timestamps were observed in order.
pub open spec fn feed(m: TrackerModel, stamps: Seq<int>) -> TrackerModel
    decreases stamps.len(),
{
    if stamps.len() == 0 {
        m
    } else {
        observe_model(feed(m, stamps.drop_last()), stamps.last())
    }
}

/// The frequencies that a fresh tracker accepts from the given timestamps,
/// oldest first: one for each timestamp that lies 1 to 1000 ms after the
/// one before it.
pub open spec fn accepted(stamps: Seq<int>) -> Seq<int>
    decreases stamps.len(),
{
    if stamps.len() < 2 {
        Seq::empty()
    } else {
        let earlier = accepted(stamps.drop_last());
        let hz = instantaneous_hz(stamps[stamps.len() - 1] - stamps[stamps.len() - 2]);
        if hz > 0 {
            earlier.push(hz)
        } else {
            earlier
        }
    }
}

/// The last `capacity` values, or all of them where there are fewer.
pub open spec fn recent(values: Seq<int>, capacity: nat) -> Seq<int> {
    values.subrange(values.len() - populated(values.len(), capacity), values.len() as int)
}

/// Mean, rounded down, of the last `capacity` values; 0 where there is none.
pub open spec fn recent_mean(values: Seq<int>, capacity: nat) -> int {
    if values.len() == 0 {
        0
    } else {
        total(recent(values, capacity)) / (populated(values.len(), capacity) as int)
    }
}

/// The ring that results from writing the values in turn, each into the
/// slot after the one before it, starting over at the end.
pub open spec fn ring(values: Seq<int>, capacity: nat) -> Seq<int>
    decreases values.len(),
{
    if values.len() == 0 {
        Seq::new(capacity, |i: int| 0int)
    } else {
        ring(values.drop_last(), capacity).update(
            ((values.len() - 1) % (capacity as int)) as int,
            values.last(),
        )
    }
}

/// Two positions less than `k` apart fall into different slots.
proof fn lemma_distinct_slots(a: int, b: int, k: int)
    requires
        0 <= a < b,
        b - a < k,
    ensures
        a % k != b % k,
{
    lemma_fundamental_div_mod(a, k);
    lemma_fundamental_div_mod(b, k);
    if a % k == b % k {
        let qa = a / k;
        let qb = b / k;
        assert(b - a == k * (qb - qa)) by (nonlinear_arith)
            requires
                a == k * qa + a % k,
                b == k * qb + b % k,
                a % k == b % k,
        ;
        assert(false) by (nonlinear_arith)
            requires
                b - a == k * (qb - qa),
                0 < b - a < k,
        ;
    }
}

/// The sum changes by the difference that an update makes.
proof fn lemma_total_update(values: Seq<int>, at: int, value: int)
    requires
        0 <= at < values.len(),
    ensures
        total(values.update(at, value)) == total(values) - values[at] + value,
    decreases values.len(),
{
    let changed = values.update(at, value);
    if at == values.len() - 1 {
        assert(changed.drop_last() =~= values.drop_last());
    } else {
        lemma_total_update(values.drop_last(), at, value);
        assert(changed.drop_last() =~= values.drop_last().update(at, value));
    }
}

/// The sum of a sequence is its first value plus the sum of the rest.
proof fn lemma_total_first(values: Seq<int>)
    requires
        values.len() > 0,
    ensures
        total(values) == values[0] + total(values.subrange(1, values.len() as int)),
    decreases values.len(),
{
    let rest = values.subrange(1, values.len() as int);
    if values.len() == 1 {
        assert(total(values.drop_last()) == 0);
    } else {
        lemma_total_first(values.drop_last());
        assert(values.drop_last().subrange(1, values.len() - 1) =~= rest.drop_last());
    }
}

/// Each of the last `capacity` values sits in the slot of its position,
/// and the slots beyond the values hold 0.
proof fn lemma_ring_holds_recent(values: Seq<int>, capacity: nat)
    requires
        capacity > 0,
    ensures
        ring(values, capacity).len() == capacity,
        forall|j: int|
            values.len() - populated(values.len(), capacity) <= j < values.len() ==> ring(
                values,
                capacity,
            )[j % (capacity as int)] == #[trigger] values[j],
        forall|i: int| values.len() <= i < capacity ==> #[trigger] ring(values, capacity)[i] == 0,
    decreases values.len(),
{
    let k = capacity as int;
    if values.len() > 0 {
        let n = values.len() - 1;
        let earlier = values.drop_last();
        lemma_ring_holds_recent(earlier, capacity);
        lemma_fundamental_div_mod(n, k);
        assert(0 <= n % k < k) by (nonlinear_arith)
            requires
                k > 0,
        ;
        assert forall|j: int|
            values.len() - populated(values.len(), capacity) <= j < values.len() implies ring(
            values,
            capacity,
        )[j % k] == #[trigger] values[j] by {
            if j < n {
                lemma_distinct_slots(j, n, k);
                assert(0 <= j % k < k) by (nonlinear_arith)
                    requires
                        k > 0,
                ;
                assert(earlier[j] == values[j]);
            }
        }
        assert forall|i: int| values.len() <= i < capacity implies #[trigger] ring(
            values,
            capacity,
        )[i] == 0 by {
            lemma_small_mod(n as nat, capacity);
        }
    }
}

/// The ring and the last `capacity` values have the same sum.
proof fn lemma_ring_total(values: Seq<int>, capacity: nat)
    requires
        capacity > 0,
    ensures
        total(ring(values, capacity)) == total(recent(values, capacity)),
    decreases values.len(),
{
    let k = capacity as int;
    if values.len() == 0 {
        lemma_total_zeros(capacity);
    } else {
        let n = values.len() - 1;
        let earlier = values.drop_last();
        let before = ring(earlier, capacity);
        lemma_ring_total(earlier, capacity);
        lemma_ring_holds_recent(earlier, capacity);
        assert(0 <= n % k < k) by (nonlinear_arith)
            requires
                k > 0,
        ;
        lemma_total_update(before, n % k, values.last());
        let window = recent(values, capacity);
        if n < k {
            lemma_small_mod(n as nat, capacity);
            assert(window.drop_last() =~= recent(earlier, capacity));
        } else {
            lemma_mod_sub_multiples_vanish(n, k);
            let old_window = recent(earlier, capacity);
            lemma_total_first(old_window);
            assert(window.drop_last() =~= old_window.subrange(1, old_window.len() as int));
        }
    }
}

/// A ring of zeros sums to 0.
proof fn lemma_total_zeros(capacity: nat)
    ensures
        total(Seq::new(capacity, |i: int| 0int)) == 0,
    decreases capacity,
{
    if capacity > 0 {
        lemma_total_zeros((capacity - 1) as nat);
        assert(Seq::new(capacity, |i: int| 0int).drop_last() =~= Seq::new(
            (capacity - 1) as nat,
            |i: int| 0int,
        ));
    }
}

/// A tracker that was fed timestamps holds the ring of the frequencies it
/// accepted, their number, and the last timestamp as its baseline.
pub proof fn lemma_feed_is_ring(capacity: nat, stamps: Seq<int>)
    requires
        capacity > 0,
    ensures
        feed(fresh(capacity), stamps).slots == ring(accepted(stamps), capacity),
        feed(fresh(capacity), stamps).count == accepted(stamps).len(),
        feed(fresh(capacity), stamps).average == mean(
            ring(accepted(stamps), capacity),
            accepted(stamps).len(),
        ),
        feed(fresh(capacity), stamps).previous == if stamps.len() == 0 {
            None
        } else {
            Some(stamps.last())
        },
    decreases stamps.len(),
{
    if stamps.len() > 0 {
        let earlier = stamps.drop_last();
        lemma_feed_is_ring(capacity, earlier);
        lemma_ring_holds_recent(accepted(earlier), capacity);
        if earlier.len() > 0 {
            let hz = instantaneous_hz(stamps.last() - earlier.last());
            if hz > 0 {
                assert(accepted(stamps).drop_last() =~= accepted(earlier));
            }
        }
    }
}

/// After any run of timestamps, the sample count of a tracker is the number
/// of frequencies it accepted, and its average is the mean, rounded down,
/// of the most recent of them: of the last `capacity`, or of all where
/// there are fewer.
pub proof fn lemma_average_is_mean_of_recent(capacity: nat, stamps: Seq<int>)
    requires
        capacity > 0,
    ensures
        feed(fresh(capacity), stamps).count == accepted(stamps).len(),
        feed(fresh(capacity), stamps).average == recent_mean(accepted(stamps), capacity),
{
    lemma_feed_is_ring(capacity, stamps);
    lemma_ring_total(accepted(stamps), capacity);
    lemma_ring_holds_recent(accepted(stamps), capacity);
}

/// Every state that a fresh tracker reaches is consistent.
pub proof fn lemma_feed_is_consistent(capacity: nat, stamps: Seq<int>)
    requires
        capacity > 0,
    ensures
        consistent(feed(fresh(capacity), stamps)),
    decreases stamps.len(),
{
    if stamps.len() > 0 {
        lemma_feed_is_consistent(capacity, stamps.drop_last());
        lemma_observe_keeps_consistent(feed(fresh(capacity), stamps.drop_last()), stamps.last());
    }
}

} // verus!
