//! Samples of a process's clock and resource counters, and the arithmetic on
//! the intervals between them.
//!
//! Times are whole nanoseconds and memory is whole bytes, each in a `u64`.
//! A sum that would pass `u64::MAX` stays there, and a difference that would
//! be negative is zero, so that no operation here can fail.

use vstd::prelude::*;
use vstd::seq_lib::{commutative_foldl, lemma_fold_left_permutation};

verus! {

/// Nanoseconds in one second.
pub const NANOS_PER_SECOND: u64 = 1_000_000_000;

/// Nanoseconds in one microsecond.
pub const NANOS_PER_MICROSECOND: u64 = 1_000;

/// Largest value a counter can hold.
pub open spec fn counter_max() -> nat {
    0xffff_ffff_ffff_ffff
}

/// `n`, held at `counter_max()` where it would pass it.
pub open spec fn capped(n: nat) -> nat {
    if n > counter_max() {
        counter_max()
    } else {
        n
    }
}

/// Sum of two counters, held at `counter_max()` where it would pass it.
pub open spec fn capped_sum(a: nat, b: nat) -> nat {
    capped(a + b)
}

/// `a - b` where `a >= b`, and zero otherwise.
pub open spec fn clamped_difference(a: nat, b: nat) -> nat {
    if a >= b {
        (a - b) as nat
    } else {
        0
    }
}

/// The larger of two counters.
pub open spec fn larger(a: nat, b: nat) -> nat {
    if a >= b {
        a
    } else {
        b
    }
}

/// `n` where it is positive, and zero otherwise.
pub open spec fn non_negative(n: int) -> nat {
    if n > 0 {
        n as nat
    } else {
        0
    }
}

/// Nanoseconds in a time given as seconds and microseconds. A negative part
/// counts as zero, and the result is held at `counter_max()`.
pub open spec fn timeval_nanos(seconds: int, microseconds: int) -> nat {
    capped(
        non_negative(seconds) * (NANOS_PER_SECOND as nat) + non_negative(microseconds) * (
        NANOS_PER_MICROSECOND as nat),
    )
}

/// What an interval cost: elapsed time, processor time in user and in system
/// mode, and resident memory.
pub struct Cost {
    pub wall_clock_time: nat,
    pub user_time: nat,
    pub system_time: nat,
    pub max_resident_memory: nat,
}

impl Cost {
    /// The cost of nothing.
    pub open spec fn zero() -> Cost {
        Cost { wall_clock_time: 0, user_time: 0, system_time: 0, max_resident_memory: 0 }
    }

    /// The cost of two intervals together: times add up, memory is the larger
    /// of the two figures.
    pub open spec fn combine(self, other: Cost) -> Cost {
        Cost {
            wall_clock_time: capped_sum(self.wall_clock_time, other.wall_clock_time),
            user_time: capped_sum(self.user_time, other.user_time),
            system_time: capped_sum(self.system_time, other.system_time),
            max_resident_memory: larger(self.max_resident_memory, other.max_resident_memory),
        }
    }

    /// Whether every figure fits a counter.
    pub open spec fn representable(self) -> bool {
        &&& self.wall_clock_time <= counter_max()
        &&& self.user_time <= counter_max()
        &&& self.system_time <= counter_max()
        &&& self.max_resident_memory <= counter_max()
    }

    /// Processor use in hundredths of a percent of the elapsed time, rounded
    /// down; zero where no time elapsed.
    pub open spec fn cpu_usage_hundredths(self) -> nat {
        if self.wall_clock_time == 0 {
            0
        } else {
            ((self.user_time + self.system_time) * 10_000) / self.wall_clock_time
        }
    }
}

/// Processor times and peak resident memory as the operating system's process
/// accounting reports them: each time as seconds and microseconds.
#[derive(Clone, Copy, Debug)]
pub struct RawUsage {
    pub user_seconds: i64,
    pub user_microseconds: i64,
    pub system_seconds: i64,
    pub system_microseconds: i64,
    pub max_resident_memory: i64,
}

/// One reading of the clock and of the process's counters.
///
/// `timestamp` is on a monotonic clock with an origin of the caller's choice;
/// `user_time` and `system_time` are the processor time used since the
/// process started.
#[derive(Clone, Copy, Debug, PartialEq, Eq, Structural)]
pub struct Reading {
    pub timestamp: u64,
    pub user_time: u64,
    pub system_time: u64,
    pub max_resident_memory: u64,
}

impl Reading {
    /// The reading at `timestamp` with all counters at zero.
    pub open spec fn zeroed(timestamp: u64) -> Reading {
        Reading { timestamp, user_time: 0, system_time: 0, max_resident_memory: 0 }
    }

    /// The reading that `usage` amounts to at `timestamp`; all counters are
    /// zero where the operating system reported nothing.
    pub open spec fn of_usage(timestamp: u64, usage: Option<RawUsage>) -> Reading {
        match usage {
            Some(raw) => Reading {
                timestamp,
                user_time: timeval_nanos(
                    raw.user_seconds as int,
                    raw.user_microseconds as int,
                ) as u64,
                system_time: timeval_nanos(
                    raw.system_seconds as int,
                    raw.system_microseconds as int,
                ) as u64,
                max_resident_memory: non_negative(raw.max_resident_memory as int) as u64,
            },
            None => Reading::zeroed(timestamp),
        }
    }

    /// Whether this reading can have been taken after `earlier`: neither the
    /// clock nor a counter went back.
    pub open spec fn follows(self, earlier: Reading) -> bool {
        &&& self.timestamp >= earlier.timestamp
        &&& self.user_time >= earlier.user_time
        &&& self.system_time >= earlier.system_time
        &&& self.max_resident_memory >= earlier.max_resident_memory
    }

    /// The cost of the interval from `earlier` to this reading. A figure that
    /// went back counts as zero.
    pub open spec fn since(self, earlier: Reading) -> Cost {
        Cost {
            wall_clock_time: clamped_difference(self.timestamp as nat, earlier.timestamp as nat),
            user_time: clamped_difference(self.user_time as nat, earlier.user_time as nat),
            system_time: clamped_difference(self.system_time as nat, earlier.system_time as nat),
            max_resident_memory: clamped_difference(
                self.max_resident_memory as nat,
                earlier.max_resident_memory as nat,
            ),
        }
    }

    /// Makes a reading of the clock's value and of what the operating system
    /// reported, if it reported anything.
    pub fn capture(timestamp: u64, usage: Option<RawUsage>) -> (reading: Reading)
        ensures
            reading == Reading::of_usage(timestamp, usage),
    {
        match usage {
            Some(raw) => Reading {
                timestamp,
                user_time: nanos_of_timeval(raw.user_seconds, raw.user_microseconds),
                system_time: nanos_of_timeval(raw.system_seconds, raw.system_microseconds),
                max_resident_memory: if raw.max_resident_memory > 0 {
                    raw.max_resident_memory as u64
                } else {
                    0
                },
            },
            None => Reading { timestamp, user_time: 0, system_time: 0, max_resident_memory: 0 },
        }
    }
}

/// Converts a time given as seconds and microseconds to nanoseconds.
pub fn nanos_of_timeval(seconds: i64, microseconds: i64) -> (nanos: u64)
    ensures
        nanos as nat == timeval_nanos(seconds as int, microseconds as int),
{
    let whole: u64 = if seconds > 0 {
        seconds as u64
    } else {
        0
    };
    let part: u64 = if microseconds > 0 {
        microseconds as u64
    } else {
        0
    };
    let sum: u128 = (whole as u128) * 1_000_000_000 + (part as u128) * 1_000;
    if sum > u64::MAX as u128 {
        u64::MAX
    } else {
        sum as u64
    }
}

/// A reading together with the name of the operation or phase for which it
/// was taken.
#[derive(Debug, PartialEq, Eq)]
pub struct ResourceSample {
    pub name: String,
    pub reading: Reading,
}

/// A `ResourceSample` as a mathematical value.
pub struct SampleView {
    pub name: Seq<char>,
    pub reading: Reading,
}

impl SampleView {
    /// The cost of the interval from `prev` to this sample, under this
    /// sample's name.
    pub open spec fn diff(self, prev: SampleView) -> DeltaView {
        DeltaView { name: self.name, cost: self.reading.since(prev.reading) }
    }
}

impl View for ResourceSample {
    type V = SampleView;

    open spec fn view(&self) -> SampleView {
        SampleView { name: self.name@, reading: self.reading }
    }
}

impl Clone for ResourceSample {
    fn clone(&self) -> (copy: Self)
        ensures
            copy == *self,
    {
        ResourceSample { name: self.name.clone(), reading: self.reading }
    }
}

impl ResourceSample {
    /// The cost of the interval from `prev` to this sample.
    ///
    /// Where `prev` was taken first, each figure is the plain difference. A
    /// figure of `prev` that is the larger one gives zero.
    pub fn diff(&self, prev: &ResourceSample) -> (delta: MetricsDelta)
        ensures
            delta@ == self@.diff(prev@),
            self.reading.follows(prev.reading) ==> {
                &&& delta.wall_clock_time == self.reading.timestamp - prev.reading.timestamp
                &&& delta.user_time == self.reading.user_time - prev.reading.user_time
                &&& delta.system_time == self.reading.system_time - prev.reading.system_time
                &&& delta.max_resident_memory == self.reading.max_resident_memory
                    - prev.reading.max_resident_memory
            },
    {
        MetricsDelta {
            name: self.name.clone(),
            wall_clock_time: self.reading.timestamp.saturating_sub(prev.reading.timestamp),
            user_time: self.reading.user_time.saturating_sub(prev.reading.user_time),
            system_time: self.reading.system_time.saturating_sub(prev.reading.system_time),
            max_resident_memory: self.reading.max_resident_memory.saturating_sub(
                prev.reading.max_resident_memory,
            ),
        }
    }
}

/// The cost of an interval, or of several intervals together, under the name
/// of the operation or phase that it covers.
///
/// `==` compares the names too. What `combine` promises of two deltas it
/// promises of their costs, whatever their names.
#[derive(Debug, PartialEq, Eq)]
pub struct MetricsDelta {
    pub name: String,
    pub wall_clock_time: u64,
    pub user_time: u64,
    pub system_time: u64,
    pub max_resident_memory: u64,
}

/// A `MetricsDelta` as a mathematical value.
pub struct DeltaView {
    pub name: Seq<char>,
    pub cost: Cost,
}

impl DeltaView {
    /// The delta under `name` that costs nothing.
    pub open spec fn zero(name: Seq<char>) -> DeltaView {
        DeltaView { name, cost: Cost::zero() }
    }

    /// This delta and `other` together, under this delta's name.
    pub open spec fn combine(self, other: DeltaView) -> DeltaView {
        DeltaView { name: self.name, cost: self.cost.combine(other.cost) }
    }
}

impl View for MetricsDelta {
    type V = DeltaView;

    open spec fn view(&self) -> DeltaView {
        DeltaView {
            name: self.name@,
            cost: Cost {
                wall_clock_time: self.wall_clock_time as nat,
                user_time: self.user_time as nat,
                system_time: self.system_time as nat,
                max_resident_memory: self.max_resident_memory as nat,
            },
        }
    }
}

/// The deltas of a list as mathematical values, in the list's order.
pub open spec fn delta_views(deltas: Seq<MetricsDelta>) -> Seq<DeltaView> {
    deltas.map_values(|delta: MetricsDelta| delta@)
}

impl Clone for MetricsDelta {
    fn clone(&self) -> (copy: Self)
        ensures
            copy == *self,
    {
        MetricsDelta {
            name: self.name.clone(),
            wall_clock_time: self.wall_clock_time,
            user_time: self.user_time,
            system_time: self.system_time,
            max_resident_memory: self.max_resident_memory,
        }
    }
}

impl MetricsDelta {
    /// The delta under `name` that costs nothing.
    pub fn zero(name: String) -> (delta: MetricsDelta)
        ensures
            delta@ == DeltaView::zero(name@),
            delta.name == name,
    {
        MetricsDelta {
            name,
            wall_clock_time: 0,
            user_time: 0,
            system_time: 0,
            max_resident_memory: 0,
        }
    }

    /// This delta and `other` together, under this delta's name: the times
    /// are added, and the memory figure is the larger of the two.
    pub fn combine(&self, other: &MetricsDelta) -> (sum: MetricsDelta)
        ensures
            sum@ == self@.combine(other@),
            sum.name == self.name,
            self.wall_clock_time + other.wall_clock_time <= u64::MAX ==> sum.wall_clock_time
                == self.wall_clock_time + other.wall_clock_time,
            self.user_time + other.user_time <= u64::MAX ==> sum.user_time == self.user_time
                + other.user_time,
            self.system_time + other.system_time <= u64::MAX ==> sum.system_time
                == self.system_time + other.system_time,
    {
        MetricsDelta {
            name: self.name.clone(),
            wall_clock_time: self.wall_clock_time.saturating_add(other.wall_clock_time),
            user_time: self.user_time.saturating_add(other.user_time),
            system_time: self.system_time.saturating_add(other.system_time),
            max_resident_memory: if self.max_resident_memory >= other.max_resident_memory {
                self.max_resident_memory
            } else {
                other.max_resident_memory
            },
        }
    }

    /// Processor use over the interval in hundredths of a percent of the
    /// elapsed time, rounded down; zero where no time elapsed.
    pub fn cpu_usage_hundredths(&self) -> (usage: u128)
        ensures
            usage as nat == self@.cost.cpu_usage_hundredths(),
    {
        if self.wall_clock_time == 0 {
            0
        } else {
            let busy: u128 = self.user_time as u128 + self.system_time as u128;
            (busy * 10_000) / (self.wall_clock_time as u128)
        }
    }
}

/// Between two readings of which the later one follows the earlier, every
/// figure of the difference is the plain difference of the two readings, and
/// none is negative.
pub proof fn lemma_diff_of_ordered_samples(later: ResourceSample, earlier: ResourceSample)
    requires
        later.reading.follows(earlier.reading),
    ensures
        later@.diff(earlier@).cost.wall_clock_time == later.reading.timestamp
            - earlier.reading.timestamp >= 0,
        later@.diff(earlier@).cost.user_time == later.reading.user_time
            - earlier.reading.user_time >= 0,
        later@.diff(earlier@).cost.system_time == later.reading.system_time
            - earlier.reading.system_time >= 0,
        later@.diff(earlier@).cost.max_resident_memory == later.reading.max_resident_memory
            - earlier.reading.max_resident_memory >= 0,
{
}

/// The order of two deltas does not change what they cost together.
pub proof fn lemma_combine_commutative(x: MetricsDelta, y: MetricsDelta)
    ensures
        x@.combine(y@).cost == y@.combine(x@).cost,
{
}

/// Combining three deltas gives the same whichever two are combined first.
pub proof fn lemma_combine_associative(x: MetricsDelta, y: MetricsDelta, z: MetricsDelta)
    ensures
        x@.combine(y@).combine(z@) == x@.combine(y@.combine(z@)),
{
}

/// Combining with a delta that costs nothing changes nothing, on either side
/// as far as the cost goes.
pub proof fn lemma_combine_zero(x: MetricsDelta, name: Seq<char>)
    ensures
        x@.combine(DeltaView::zero(name)) == x@,
        DeltaView::zero(name).combine(x@).cost == x@.cost,
{
}

/// The memory figure of a combination is the larger of the two figures, so
/// that a delta combined with itself keeps its figure.
pub proof fn lemma_combine_keeps_larger_memory(x: MetricsDelta, y: MetricsDelta)
    ensures
        x@.combine(y@).cost.max_resident_memory >= x@.cost.max_resident_memory,
        x@.combine(y@).cost.max_resident_memory >= y@.cost.max_resident_memory,
        x@.combine(y@).cost.max_resident_memory == x@.cost.max_resident_memory || x@.combine(
            y@,
        ).cost.max_resident_memory == y@.cost.max_resident_memory,
        x@.combine(x@).cost.max_resident_memory == x@.cost.max_resident_memory,
{
}

/// What intervals with the costs `costs` cost together.
pub open spec fn combined_cost(costs: Seq<Cost>) -> Cost {
    costs.fold_left(Cost::zero(), |total: Cost, cost: Cost| total.combine(cost))
}

/// What several intervals cost together does not depend on their order.
pub proof fn lemma_combined_cost_ignores_order(one: Seq<Cost>, other: Seq<Cost>)
    requires
        one.to_multiset() == other.to_multiset(),
    ensures
        combined_cost(one) == combined_cost(other),
{
    let combine = |total: Cost, cost: Cost| total.combine(cost);
    assert(commutative_foldl(combine));
    lemma_fold_left_permutation(one, other, combine, Cost::zero());
}

/// What a combination costs fits the counters whenever both parts do.
pub proof fn lemma_combine_representable(a: Cost, b: Cost)
    requires
        a.representable(),
        b.representable(),
    ensures
        a.combine(b).representable(),
{
}

} // verus!
