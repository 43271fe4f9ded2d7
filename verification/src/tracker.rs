//! Rolling average of the event frequency of one device.
//!
//! A tracker keeps the last `K` instantaneous frequencies in a ring and
//! their mean. [`TrackerModel`] is its mathematical state and
//! [`observe_model`] the effect of one timestamp on it; the executable
//! [`FrequencyTracker`] is proved to follow that model step by step.

use vstd::prelude::*;
use vstd::arithmetic::power2::is_pow2;
use crate::fill::zeros;

verus! {

/// Number of samples that a default tracker averages over.
pub const DEFAULT_WINDOW: usize = 64;

/// Largest frequency that a millisecond clock can resolve, in Hz.
pub const MAX_HZ: i32 = 1000;

/// Mathematical state of a tracker.
pub struct TrackerModel {
    /// The ring of recent frequencies; a slot never written holds 0.
    pub slots: Seq<int>,
    /// How many samples were accepted so far.
    pub count: nat,
    /// Mean of the populated slots.
    pub average: int,
    /// Timestamp of the last event seen, in milliseconds.
    pub previous: Option<int>,
}

/// Sum of the values of a sequence.
pub open spec fn total(values: Seq<int>) -> int
    decreases values.len(),
{
    if values.len() == 0 {
        0
    } else {
        total(values.drop_last()) + values.last()
    }
}

/// Number of populated slots after `count` samples in a ring of `capacity`.
pub open spec fn populated(count: nat, capacity: nat) -> nat {
    if count < capacity {
        count
    } else {
        capacity
    }
}

/// Sum of the slots divided by the number of populated slots; 0 before the
/// first sample.
pub open spec fn mean(slots: Seq<int>, count: nat) -> int {
    if count == 0 {
        0
    } else {
        total(slots) / (populated(count, slots.len()) as int)
    }
}

/// Frequency in Hz of two events `delta_ms` milliseconds apart, rounded
/// down; 0 where the interval is not positive.
pub open spec fn instantaneous_hz(delta_ms: int) -> int {
    if delta_ms > 0 {
        1000int / delta_ms
    } else {
        0
    }
}

/// The frequency that a timestamp contributes, if it contributes one.
pub open spec fn live_value(m: TrackerModel, stamp: int) -> Option<int> {
    match m.previous {
        None => None,
        Some(previous) => {
            let hz = instantaneous_hz(stamp - previous);
            if hz > 0 {
                Some(hz)
            } else {
                None
            }
        },
    }
}

/// State after the event with timestamp `stamp` was observed.
pub open spec fn observe_model(m: TrackerModel, stamp: int) -> TrackerModel {
    match live_value(m, stamp) {
        None => TrackerModel { previous: Some(stamp), ..m },
        Some(hz) => {
            let slots = m.slots.update((m.count % m.slots.len()) as int, hz);
            let count = m.count + 1;
            TrackerModel {
                slots,
                count,
                average: mean(slots, count),
                previous: Some(stamp),
            }
        },
    }
}

/// State of a tracker of the given capacity that has seen no event.
pub open spec fn fresh(capacity: nat) -> TrackerModel {
    TrackerModel {
        slots: Seq::new(capacity, |i: int| 0int),
        count: 0,
        average: 0,
        previous: None,
    }
}

/// What every reachable state satisfies: the ring is not empty, holds
/// frequencies between 0 and `MAX_HZ`, holds 0 in the slots not yet
/// written, and the average is the mean of the ring.
pub open spec fn consistent(m: TrackerModel) -> bool {
    &&& m.slots.len() > 0
    &&& forall|i: int| 0 <= i < m.slots.len() ==> 0 <= #[trigger] m.slots[i] <= MAX_HZ
    &&& forall|i: int| populated(m.count, m.slots.len()) <= i < m.slots.len() ==> #[trigger] m.slots[i] == 0
    &&& m.average == mean(m.slots, m.count)
}

/// What holds of the state of every tracker: it is consistent and its
/// window is a power of two.
pub open spec fn valid(m: TrackerModel) -> bool {
    consistent(m) && is_pow2(m.slots.len() as int)
}

/// Rolling estimate of how often one device emits events.
pub struct FrequencyTracker {
    recent: Vec<i32>,
    sample_count: u64,
    average: i32,
    previous_ms: Option<i128>,
}

impl View for FrequencyTracker {
    type V = TrackerModel;

    closed spec fn view(&self) -> TrackerModel {
        TrackerModel {
            slots: self.recent@.map_values(|hz: i32| hz as int),
            count: self.sample_count as nat,
            average: self.average as int,
            previous: match self.previous_ms {
                Some(stamp) => Some(stamp as int),
                None => None,
            },
        }
    }
}

/// Whether `capacity` can be the window of a tracker.
pub fn is_window(capacity: usize) -> (ok: bool)
    ensures
        ok == is_pow2(capacity as int),
{
    let mut rest: usize = capacity;
    while rest > 1 && rest % 2 == 0
        invariant
            is_pow2(rest as int) == is_pow2(capacity as int),
        decreases rest,
    {
        proof {
            reveal(is_pow2);
        }
        rest = rest / 2;
    }
    proof {
        reveal(is_pow2);
    }
    rest == 1
}

impl FrequencyTracker {
    /// Validity of a tracker.
    pub open spec fn wf(&self) -> bool {
        valid(self@)
    }

    /// A tracker over the last `capacity` samples that has seen no event.
    fn blank(capacity: usize) -> (tracker: FrequencyTracker)
        requires
            is_pow2(capacity as int),
        ensures
            tracker.wf(),
            tracker@ == fresh(capacity as nat),
    {
        proof {
            reveal(is_pow2);
        }
        let recent: Vec<i32> = zeros(capacity);
        let tracker = FrequencyTracker { recent, sample_count: 0, average: 0, previous_ms: None };
        assert(tracker@.slots =~= fresh(capacity as nat).slots);
        tracker
    }

    /// A tracker over the last `capacity` samples, where `capacity` is a
    /// power of two; `None` for any other capacity.
    pub fn with_capacity(capacity: usize) -> (made: Option<FrequencyTracker>)
        ensures
            made is Some <==> is_pow2(capacity as int),
            made matches Some(tracker) ==> tracker.wf() && tracker@ == fresh(capacity as nat),
    {
        if is_window(capacity) {
            Some(FrequencyTracker::blank(capacity))
        } else {
            None
        }
    }

    /// Number of samples that the tracker averages over.
    pub fn capacity(&self) -> (k: usize)
        ensures
            k == self@.slots.len(),
    {
        self.recent.len()
    }

    /// Number of samples accepted so far.
    pub fn sample_count(&self) -> (n: u64)
        ensures
            n == self@.count,
    {
        self.sample_count
    }

    /// Mean of the populated slots, in Hz.
    pub fn average_hz(&self) -> (hz: i32)
        ensures
            hz == self@.average,
    {
        self.average
    }

    /// Timestamp of the last event seen, in milliseconds.
    pub fn previous_timestamp_ms(&self) -> (stamp: Option<i128>)
        ensures
            stamp matches Some(ms) ==> self@.previous == Some(ms as int),
            stamp is None ==> self@.previous is None,
    {
        self.previous_ms
    }

    /// The ring of recent frequencies, slot by slot.
    pub fn recent_hz(&self) -> (ring: &Vec<i32>)
        ensures
            ring@.len() == self@.slots.len(),
            forall|i: int| 0 <= i < ring@.len() ==> ring@[i] as int == self@.slots[i],
    {
        &self.recent
    }

    /// Whether the sample counter has reached the largest value it can hold.
    pub fn is_exhausted(&self) -> (full: bool)
        ensures
            full == (self@.count >= u64::MAX),
    {
        self.sample_count == u64::MAX
    }

    /// Sum of the ring.
    fn ring_total(&self) -> (sum: i128)
        requires
            forall|i: int| 0 <= i < self@.slots.len() ==> 0 <= #[trigger] self@.slots[i] <= 1000,
        ensures
            sum == total(self@.slots),
    {
        let mut sum: i128 = 0;
        let mut at: usize = 0;
        while at < self.recent.len()
            invariant
                at <= self.recent.len(),
                self.recent@.len() == self@.slots.len(),
                forall|i: int| 0 <= i < self@.slots.len() ==> 0 <= #[trigger] self@.slots[i] <= 1000,
                forall|i: int| 0 <= i < self@.slots.len() ==> self.recent@[i] as int == #[trigger] self@.slots[i],
                sum == total(self@.slots.take(at as int)),
                0 <= sum <= 1000 * at,
            decreases self.recent.len() - at,
        {
            proof {
                let next = self@.slots.take(at + 1);
                assert(next.drop_last() =~= self@.slots.take(at as int));
                assert(next.last() == self@.slots[at as int]);
            }
            sum = sum + self.recent[at] as i128;
            at = at + 1;
        }
        assert(self@.slots.take(at as int) =~= self@.slots);
        sum
    }

    /// Takes in the timestamp of one event.
    ///
    /// The first timestamp only sets the baseline. A later one that lies
    /// between 1 and 1000 ms after the baseline adds the frequency
    /// `1000 / delta` to the ring and is returned; any other is dropped.
    /// The baseline moves to `timestamp_ms` in every case.
    pub fn observe(&mut self, timestamp_ms: i128) -> (live: Option<i32>)
        requires
            old(self).wf(),
            old(self)@.count < u64::MAX,
        ensures
            final(self).wf(),
            final(self)@ == observe_model(old(self)@, timestamp_ms as int),
            live matches Some(hz) ==> live_value(old(self)@, timestamp_ms as int) == Some(hz as int),
            live is None ==> live_value(old(self)@, timestamp_ms as int) is None,
    {
        let hz: i32 = match self.previous_ms {
            None => 0,
            Some(previous) => match timestamp_ms.checked_sub(previous) {
                Some(delta) => if 0 < delta && delta <= 1000 {
                    proof {
                        lemma_hz_range(delta as int);
                    }
                    (1000 / delta) as i32
                } else {
                    proof {
                        lemma_hz_range(delta as int);
                    }
                    0
                },
                None => {
                    proof {
                        lemma_hz_range(timestamp_ms - previous);
                    }
                    0
                },
            },
        };
        self.previous_ms = Some(timestamp_ms);
        if hz <= 0 {
            return None;
        }
        let capacity = self.recent.len();
        let slot = (self.sample_count % (capacity as u64)) as usize;
        self.recent.set(slot, hz);
        self.sample_count = self.sample_count + 1;
        let ghost slots = old(self)@.slots.update(slot as int, hz as int);
        assert(self@.slots =~= slots);
        proof {
            lemma_observe_keeps_consistent(old(self)@, timestamp_ms as int);
        }
        let sum = self.ring_total();
        let filled: u64 = if self.sample_count < capacity as u64 {
            self.sample_count
        } else {
            capacity as u64
        };
        proof {
            lemma_total_bound(slots, filled as nat);
            lemma_mean_bound(sum as int, filled as int);
        }
        self.average = (sum / (filled as i128)) as i32;
        Some(hz)
    }
}

impl Default for FrequencyTracker {
    /// A tracker over the last 64 samples.
    fn default() -> (tracker: FrequencyTracker)
        ensures
            tracker.wf(),
            tracker@ == fresh(64),
    {
        proof {
            lemma_default_window();
        }
        FrequencyTracker::blank(DEFAULT_WINDOW)
    }
}

/// Whatever the timestamp, an observation makes it the baseline, keeps the
/// size of the ring, and raises the sample count by one where it yields a
/// frequency and not at all where it yields none.
pub proof fn lemma_observation_moves_on(m: TrackerModel, stamp: int)
    requires
        m.slots.len() > 0,
    ensures
        observe_model(m, stamp).previous == Some(stamp),
        observe_model(m, stamp).slots.len() == m.slots.len(),
        observe_model(m, stamp).count == m.count + if live_value(m, stamp) is Some {
            1nat
        } else {
            0nat
        },
{
    let k = m.slots.len() as int;
    assert(0 <= (m.count as int) % k < k) by (nonlinear_arith)
        requires
            k > 0,
    ;
}

/// Slots that hold 0 add nothing: a ring whose slots from `filled` on hold
/// 0 sums to what its first `filled` slots sum to.
pub proof fn lemma_total_of_populated(slots: Seq<int>, filled: nat)
    requires
        filled <= slots.len(),
        forall|i: int| filled <= i < slots.len() ==> #[trigger] slots[i] == 0,
    ensures
        total(slots) == total(slots.take(filled as int)),
    decreases slots.len(),
{
    if filled == slots.len() {
        assert(slots.take(filled as int) =~= slots);
    } else {
        lemma_total_of_populated(slots.drop_last(), filled);
        assert(slots.drop_last().take(filled as int) =~= slots.take(filled as int));
    }
}

/// In a consistent state the average is the sum of the populated slots
/// divided by their number.
pub proof fn lemma_average_is_over_populated(m: TrackerModel)
    requires
        consistent(m),
        m.count > 0,
    ensures
        m.average == total(m.slots.take(populated(m.count, m.slots.len()) as int)) / (populated(
            m.count,
            m.slots.len(),
        ) as int),
{
    lemma_total_of_populated(m.slots, populated(m.count, m.slots.len()));
}

/// The first timestamp that a tracker sees yields no frequency and leaves
/// the ring, the sample count and the average as they were; it becomes the
/// baseline.
pub proof fn lemma_first_observation_sets_baseline(m: TrackerModel, stamp: int)
    requires
        m.previous is None,
    ensures
        live_value(m, stamp) is None,
        observe_model(m, stamp).slots == m.slots,
        observe_model(m, stamp).count == m.count,
        observe_model(m, stamp).average == m.average,
        observe_model(m, stamp).previous == Some(stamp),
{
}

/// A timestamp that is not later than the baseline yields no frequency and
/// leaves the ring, the sample count and the average as they were; the
/// baseline still moves to it.
pub proof fn lemma_stale_timestamp_moves_baseline(m: TrackerModel, stamp: int)
    requires
        m.previous matches Some(previous) && stamp - previous <= 0,
    ensures
        live_value(m, stamp) is None,
        observe_model(m, stamp).slots == m.slots,
        observe_model(m, stamp).count == m.count,
        observe_model(m, stamp).average == m.average,
        observe_model(m, stamp).previous == Some(stamp),
{
}

/// A timestamp is accepted exactly when it lies 1 to 1000 ms after the
/// baseline, and the frequency it yields is `1000 / delta`, between 1 and
/// 1000.
pub proof fn lemma_accepted_interval(m: TrackerModel, stamp: int)
    ensures
        live_value(m, stamp) is Some <==> (m.previous matches Some(previous) && 1 <= stamp - previous
            <= 1000),
        live_value(m, stamp) matches Some(hz) ==> 1 <= hz <= 1000,
        live_value(m, stamp) matches Some(hz) ==> (m.previous matches Some(previous) && hz == 1000int
            / (stamp - previous)),
{
    if let Some(previous) = m.previous {
        lemma_hz_range(stamp - previous);
    }
}

/// 64 is a power of two.
proof fn lemma_default_window()
    ensures
        is_pow2(64),
{
    reveal_with_fuel(is_pow2, 8);
}

/// `1000 / delta` lies in `1..=1000` for `delta` in `1..=1000` and is 0
/// beyond.
proof fn lemma_hz_range(delta: int)
    ensures
        1 <= delta <= 1000 ==> 1 <= instantaneous_hz(delta) <= 1000,
        delta > 1000 ==> instantaneous_hz(delta) == 0,
        delta <= 0 ==> instantaneous_hz(delta) == 0,
{
    if 1 <= delta <= 1000 {
        assert(1 <= 1000int / delta <= 1000) by (nonlinear_arith)
            requires
                1 <= delta <= 1000,
        ;
    }
    if delta > 1000 {
        assert(1000int / delta == 0) by (nonlinear_arith)
            requires
                delta > 1000,
        ;
    }
}

/// One observation keeps a state consistent.
pub proof fn lemma_observe_keeps_consistent(m: TrackerModel, stamp: int)
    requires
        consistent(m),
    ensures
        consistent(observe_model(m, stamp)),
{
    let k = m.slots.len() as int;
    assert(0 <= (m.count as int) % k < k) by (nonlinear_arith)
        requires
            k > 0,
    ;
    if m.count < k {
        assert((m.count as int) % k == m.count) by (nonlinear_arith)
            requires
                0 <= m.count < k,
        ;
    }
    if let Some(previous) = m.previous {
        lemma_hz_range(stamp - previous);
    }
}

/// A ring of frequencies up to 1000 whose slots from `filled` on hold 0
/// sums to at most `1000 * filled`.
proof fn lemma_total_bound(slots: Seq<int>, filled: nat)
    requires
        filled <= slots.len(),
        forall|i: int| 0 <= i < slots.len() ==> 0 <= #[trigger] slots[i] <= 1000,
        forall|i: int| filled <= i < slots.len() ==> #[trigger] slots[i] == 0,
    ensures
        0 <= total(slots) <= 1000 * filled,
    decreases slots.len(),
{
    if slots.len() > 0 {
        let rest = slots.drop_last();
        if filled == slots.len() {
            lemma_total_bound(rest, (filled - 1) as nat);
        } else {
            lemma_total_bound(rest, filled);
        }
    }
}

/// The mean of a sum of at most `1000 * filled` is at most 1000.
proof fn lemma_mean_bound(sum: int, filled: int)
    requires
        filled > 0,
        0 <= sum <= 1000 * filled,
    ensures
        0 <= sum / filled <= 1000,
{
    assert(0 <= sum / filled <= 1000) by (nonlinear_arith)
        requires
            filled > 0,
            0 <= sum <= 1000 * filled,
    ;
}

} // verus!
