//! The tracker of a run in which several threads work: each thread has its
//! own operation in progress, and all share the finished operations and the
//! phases.
//!
//! The tracker is one value. Threads that share it take turns, and each
//! reads the clock and the process's counters before its turn.

use crate::metrics::{delta_views, DeltaView, MetricsDelta, Reading, ResourceSample, SampleView};
use crate::phases::{lemma_phase_total_is_combined_cost, PhaseAggregator, PhasesView};
use crate::report::{Report, ReportView};
use crate::tracker::{total_name, TrackerView};
use std::collections::HashMap;
use vstd::prelude::*;

verus! {

/// A `ConcurrentTracker` as a mathematical value.
pub struct ConcurrentView {
    /// The sample taken when the run started.
    pub start: SampleView,
    /// For each thread with an operation in progress, the sample taken at the
    /// operation's start.
    pub in_flight: Map<u64, SampleView>,
    /// The finished operations, in the order in which they finished.
    pub completed: Seq<DeltaView>,
    /// The phases of the run.
    pub phases: PhasesView,
}

impl ConcurrentView {
    /// A run that starts at `now`: nothing is in progress and nothing was
    /// finished.
    pub open spec fn init(now: Reading) -> ConcurrentView {
        ConcurrentView {
            start: SampleView { name: total_name(), reading: now },
            in_flight: Map::empty(),
            completed: Seq::empty(),
            phases: PhasesView::empty(),
        }
    }

    /// The operation that started with `start` is finished at `now`: what it
    /// cost joins the finished operations, and every open phase takes the
    /// whole of it.
    pub open spec fn record(self, start: SampleView, now: Reading) -> ConcurrentView {
        let delta = TrackerView::cost_since(start, now);
        ConcurrentView {
            completed: self.completed.push(delta),
            phases: self.phases.fold(delta.cost),
            ..self
        }
    }

    /// On `thread` the operation in progress, if there is one, is finished at
    /// `now`. Nothing changes where none is in progress there.
    pub open spec fn finish_operation(self, thread: u64, now: Reading) -> ConcurrentView {
        if self.in_flight.dom().contains(thread) {
            (ConcurrentView { in_flight: self.in_flight.remove(thread), ..self }).record(
                self.in_flight[thread],
                now,
            )
        } else {
            self
        }
    }

    /// On `thread` the operation `name` starts at `now`. An operation that is
    /// in progress there is finished at `now` first.
    pub open spec fn start_operation(
        self,
        thread: u64,
        name: Seq<char>,
        now: Reading,
    ) -> ConcurrentView {
        let settled = self.finish_operation(thread, now);
        ConcurrentView {
            in_flight: settled.in_flight.insert(thread, SampleView { name, reading: now }),
            ..settled
        }
    }

    /// The phase `name` starts.
    pub open spec fn start_phase(self, name: Seq<char>) -> ConcurrentView {
        ConcurrentView { phases: self.phases.start(name), ..self }
    }

    /// The phase `name` ends.
    pub open spec fn end_phase(self, name: Seq<char>) -> ConcurrentView {
        ConcurrentView { phases: self.phases.end(name), ..self }
    }

    /// What the run cost from its start until `now`.
    pub open spec fn total(self, now: Reading) -> DeltaView {
        (SampleView { name: total_name(), reading: now }).diff(self.start)
    }

    /// What the run has to report at `now`.
    pub open spec fn report(self, now: Reading) -> ReportView {
        ReportView {
            operations: self.completed,
            phases: self.phases.totals(),
            total: self.total(now),
        }
    }
}

/// The samples of a map as mathematical values, each under its thread.
spec fn sample_views(slots: Map<u64, ResourceSample>) -> Map<u64, SampleView> {
    slots.map_values(|sample: ResourceSample| sample@)
}

/// Tracks what the operations and the phases of a run cost where several
/// threads work. A thread is known by a number of the caller's choice.
#[derive(Debug)]
pub struct ConcurrentTracker {
    start_metrics: ResourceSample,
    in_flight: HashMap<u64, ResourceSample>,
    completed_metrics: Vec<MetricsDelta>,
    phases: PhaseAggregator,
}

impl View for ConcurrentTracker {
    type V = ConcurrentView;

    closed spec fn view(&self) -> ConcurrentView {
        ConcurrentView {
            start: self.start_metrics@,
            in_flight: sample_views(self.in_flight@),
            completed: delta_views(self.completed_metrics@),
            phases: self.phases@,
        }
    }
}

impl ConcurrentTracker {
    /// The tracker of a run that starts at `now`.
    pub fn new(now: Reading) -> (tracker: ConcurrentTracker)
        ensures
            tracker@ == ConcurrentView::init(now),
    {
        let tracker = ConcurrentTracker {
            start_metrics: ResourceSample { name: "Total".to_owned(), reading: now },
            in_flight: HashMap::new(),
            completed_metrics: Vec::new(),
            phases: PhaseAggregator::new(),
        };
        proof {
            assert(tracker@.completed =~= Seq::<DeltaView>::empty());
            assert(tracker@.in_flight =~= Map::<u64, SampleView>::empty());
        }
        tracker
    }

    /// Starts the operation `name` on `thread` at `now`. An operation that is
    /// in progress on that thread is finished at `now` first, and counts like
    /// any finished operation.
    pub fn start_operation(&mut self, thread: u64, name: &str, now: Reading)
        ensures
            final(self)@ == old(self)@.start_operation(thread, name@, now),
    {
        self.finish_operation(thread, now);
        let ghost slots = self.in_flight@;
        let sample = ResourceSample { name: name.to_owned(), reading: now };
        self.in_flight.insert(thread, sample);
        proof {
            assert(sample_views(self.in_flight@) =~= sample_views(slots).insert(
                thread,
                SampleView { name: name@, reading: now },
            ));
        }
    }

    /// Finishes the operation in progress on `thread` at `now`: what it cost
    /// since its start joins the finished operations, and every open phase
    /// takes the whole of it. Where no operation is in progress on that
    /// thread nothing changes. Says whether an operation was finished.
    pub fn finish_operation(&mut self, thread: u64, now: Reading) -> (finished: bool)
        ensures
            final(self)@ == old(self)@.finish_operation(thread, now),
            finished == old(self)@.in_flight.dom().contains(thread),
    {
        let ghost slots = self.in_flight@;
        match self.in_flight.remove(&thread) {
            Some(start_metrics) => {
                proof {
                    assert(sample_views(self.in_flight@) =~= sample_views(slots).remove(thread));
                }
                let end_metrics = ResourceSample { name: start_metrics.name.clone(), reading: now };
                let diff_metrics = end_metrics.diff(&start_metrics);
                self.phases.fold(&diff_metrics);
                let ghost completed = delta_views(self.completed_metrics@);
                self.completed_metrics.push(diff_metrics);
                proof {
                    assert(delta_views(self.completed_metrics@) =~= completed.push(
                        TrackerView::cost_since(start_metrics@, now),
                    ));
                }
                true
            },
            None => {
                proof {
                    assert(self.in_flight@ =~= slots);
                }
                false
            },
        }
    }

    /// Starts the phase `name` with a running total of zero. A phase of this
    /// name that is open starts anew.
    pub fn start_phase(&mut self, name: &str)
        ensures
            final(self)@ == old(self)@.start_phase(name@),
    {
        self.phases.start_phase(name);
    }

    /// Ends the phase `name` and keeps its total for the report. Does nothing
    /// where no phase of this name is open.
    pub fn end_phase(&mut self, name: &str)
        ensures
            final(self)@ == old(self)@.end_phase(name@),
    {
        self.phases.end_phase(name);
    }

    /// What the run cost from its start until `now`.
    pub fn get_total_metrics(&self, now: Reading) -> (total: MetricsDelta)
        ensures
            total@ == self@.total(now),
    {
        let current = ResourceSample { name: "Total".to_owned(), reading: now };
        current.diff(&self.start_metrics)
    }

    /// What the run has to report at `now`. The tracker stays as it is.
    pub fn report(&self, now: Reading) -> (report: Report)
        ensures
            report@ == self@.report(now),
    {
        let total = self.get_total_metrics(now);
        let operations = self.completed_metrics.clone();
        Report { operations, phases: self.phases.totals(), total }
    }

    /// The finished operations, in the order in which they finished.
    pub fn completed_metrics(&self) -> (completed: &Vec<MetricsDelta>)
        ensures
            delta_views(completed@) == self@.completed,
    {
        &self.completed_metrics
    }

    /// The phases of the run.
    pub fn phases(&self) -> (phases: &PhaseAggregator)
        ensures
            phases@ == self@.phases,
    {
        &self.phases
    }

    /// The sample taken at the start of the operation in progress on
    /// `thread`, if one is.
    pub fn operation_in_progress(&self, thread: u64) -> (current: Option<&ResourceSample>)
        ensures
            match current {
                Some(sample) => self@.in_flight.dom().contains(thread) && self@.in_flight[thread]
                    == sample@,
                None => !self@.in_flight.dom().contains(thread),
            },
    {
        self.in_flight.get(&thread)
    }

    /// The sample taken when the run started.
    pub fn start_metrics(&self) -> (start: &ResourceSample)
        ensures
            start@ == self@.start,
    {
        &self.start_metrics
    }
}

/// A phase during which operations on two threads finish ends with what the
/// two cost together, whichever of them finished first.
pub proof fn lemma_phase_total_ignores_finish_order(
    t: ConcurrentView,
    phase: Seq<char>,
    one: u64,
    one_end: Reading,
    other: u64,
    other_end: Reading,
)
    requires
        one != other,
        t.in_flight.dom().contains(one),
        t.in_flight.dom().contains(other),
    ensures
        ({
            let opened = t.start_phase(phase);
            let one_first = opened.finish_operation(one, one_end).finish_operation(
                other,
                other_end,
            ).end_phase(phase);
            let other_first = opened.finish_operation(other, other_end).finish_operation(
                one,
                one_end,
            ).end_phase(phase);
            let total = DeltaView {
                name: phase,
                cost: TrackerView::cost_since(t.in_flight[one], one_end).cost.combine(
                    TrackerView::cost_since(t.in_flight[other], other_end).cost,
                ),
            };
            &&& one_first.phases.finished == t.phases.finished.push(total)
            &&& other_first.phases.finished == t.phases.finished.push(total)
            &&& one_first.in_flight == other_first.in_flight
        }),
{
    let first = TrackerView::cost_since(t.in_flight[one], one_end).cost;
    let second = TrackerView::cost_since(t.in_flight[other], other_end).cost;
    lemma_phase_total_is_combined_cost(t.phases, phase, first, second);
    let opened = t.start_phase(phase);
    let one_done = opened.finish_operation(one, one_end);
    let other_done = opened.finish_operation(other, other_end);
    assert(one_done.finish_operation(other, other_end).in_flight =~= other_done.finish_operation(
        one,
        one_end,
    ).in_flight);
}

/// Every operation that finishes is recorded once: finishing the operation
/// of a thread adds one entry to the finished operations and leaves the
/// thread without an operation in progress, so that finishing again adds
/// nothing.
pub proof fn lemma_finished_operation_is_recorded_once(
    t: ConcurrentView,
    thread: u64,
    now: Reading,
    later: Reading,
)
    requires
        t.in_flight.dom().contains(thread),
    ensures
        t.finish_operation(thread, now).completed == t.completed.push(
            TrackerView::cost_since(t.in_flight[thread], now),
        ),
        !t.finish_operation(thread, now).in_flight.dom().contains(thread),
        t.finish_operation(thread, now).finish_operation(thread, later) == t.finish_operation(
            thread,
            now,
        ),
{
}

/// Starting an operation on a thread that has one in progress finishes that
/// one first: it is recorded as if it had been finished at the same reading.
pub proof fn lemma_restart_finishes_stale_operation(
    t: ConcurrentView,
    thread: u64,
    name: Seq<char>,
    now: Reading,
)
    requires
        t.in_flight.dom().contains(thread),
    ensures
        t.start_operation(thread, name, now).completed == t.completed.push(
            TrackerView::cost_since(t.in_flight[thread], now),
        ),
        t.start_operation(thread, name, now).phases == t.phases.fold(
            TrackerView::cost_since(t.in_flight[thread], now).cost,
        ),
        t.start_operation(thread, name, now).in_flight == t.in_flight.insert(
            thread,
            SampleView { name, reading: now },
        ),
{
    assert(t.in_flight.remove(thread).insert(thread, SampleView { name, reading: now })
        =~= t.in_flight.insert(thread, SampleView { name, reading: now }));
}

/// Whether `c`, with `thread` as the only thread at work, stands for the
/// same run as `t`: both hold the same start, finished operations and
/// phases, and the operation in progress of `t`, if there is one, is in
/// progress on `thread`.
pub open spec fn same_run(c: ConcurrentView, thread: u64, t: TrackerView) -> bool {
    &&& c.start == t.start
    &&& c.completed == t.completed
    &&& c.phases == t.phases
    &&& c.in_flight == match t.current_operation {
        Some(start) => Map::<u64, SampleView>::empty().insert(thread, start),
        None => Map::<u64, SampleView>::empty(),
    }
}

/// With one thread at work the two trackers differ only in how they hold
/// the operation in progress: they stand for the same run after the same
/// calls and report the same. The one exception is the start of an operation
/// while another is in progress, which this tracker finishes first.
pub proof fn lemma_one_thread_tracks_alike(
    c: ConcurrentView,
    thread: u64,
    t: TrackerView,
    name: Seq<char>,
    now: Reading,
)
    requires
        same_run(c, thread, t),
    ensures
        same_run(ConcurrentView::init(now), thread, TrackerView::init(now)),
        same_run(c.finish_operation(thread, now), thread, t.finish_operation(now)),
        same_run(c.start_phase(name), thread, t.start_phase(name)),
        same_run(c.end_phase(name), thread, t.end_phase(name)),
        t.current_operation is None ==> same_run(
            c.start_operation(thread, name, now),
            thread,
            t.start_operation(name, now),
        ),
        c.report(now) == t.report(now),
{
    assert(c.finish_operation(thread, now).in_flight =~= Map::<u64, SampleView>::empty());
}

} // verus!
