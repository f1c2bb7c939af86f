//! The tracker of a run in which one operation at a time is in progress.

use crate::metrics::{delta_views, DeltaView, MetricsDelta, Reading, ResourceSample, SampleView};
use crate::phases::{
    lemma_every_open_phase_takes_full_cost, lemma_phase_total_is_combined_cost, PhaseAggregator,
    PhasesView,
};
use crate::report::{Report, ReportView};
use vstd::prelude::*;

verus! {

/// The name under which the total of a run is reported.
pub open spec fn total_name() -> Seq<char> {
    "Total"@
}

/// A `BenchmarkTracker` as a mathematical value.
pub struct TrackerView {
    /// The sample taken when the run started.
    pub start: SampleView,
    /// The sample taken at the start of the operation in progress, if one is.
    pub current_operation: Option<SampleView>,
    /// The finished operations, in the order in which they finished.
    pub completed: Seq<DeltaView>,
    /// The phases of the run.
    pub phases: PhasesView,
}

impl TrackerView {
    /// A run that starts at `now`: nothing is in progress and nothing was
    /// finished.
    pub open spec fn init(now: Reading) -> TrackerView {
        TrackerView {
            start: SampleView { name: total_name(), reading: now },
            current_operation: None,
            completed: Seq::empty(),
            phases: PhasesView::empty(),
        }
    }

    /// The operation `name` starts at `now`. An operation in progress is
    /// given up: nothing is recorded of it.
    pub open spec fn start_operation(self, name: Seq<char>, now: Reading) -> TrackerView {
        TrackerView { current_operation: Some(SampleView { name, reading: now }), ..self }
    }

    /// What the operation that started with `start` cost until `now`.
    pub open spec fn cost_since(start: SampleView, now: Reading) -> DeltaView {
        (SampleView { name: start.name, reading: now }).diff(start)
    }

    /// The operation that started with `start` is finished at `now`: what it
    /// cost joins the finished operations, and every open phase takes the
    /// whole of it.
    pub open spec fn record(self, start: SampleView, now: Reading) -> TrackerView {
        let delta = TrackerView::cost_since(start, now);
        TrackerView {
            completed: self.completed.push(delta),
            phases: self.phases.fold(delta.cost),
            ..self
        }
    }

    /// The operation in progress is finished at `now`. Nothing changes where
    /// none is in progress.
    pub open spec fn finish_operation(self, now: Reading) -> TrackerView {
        match self.current_operation {
            Some(start) => (TrackerView { current_operation: None, ..self }).record(start, now),
            None => self,
        }
    }

    /// The phase `name` starts.
    pub open spec fn start_phase(self, name: Seq<char>) -> TrackerView {
        TrackerView { phases: self.phases.start(name), ..self }
    }

    /// The phase `name` ends.
    pub open spec fn end_phase(self, name: Seq<char>) -> TrackerView {
        TrackerView { phases: self.phases.end(name), ..self }
    }

    /// What the run cost from its start until `now`.
    pub open spec fn total(self, now: Reading) -> DeltaView {
        (SampleView { name: total_name(), reading: now }).diff(self.start)
    }

    /// What the run has to report at `now`.
    pub open spec fn report(self, now: Reading) -> ReportView {
        ReportView {
            operations: self.completed,
            phases: self.phases.totals(),
            total: self.total(now),
        }
    }
}

/// Tracks what the operations and the phases of a run cost. The caller reads
/// the clock and the process's counters at each call and passes the reading.
#[derive(Debug)]
pub struct BenchmarkTracker {
    start_metrics: ResourceSample,
    current_operation: Option<ResourceSample>,
    completed_metrics: Vec<MetricsDelta>,
    phases: PhaseAggregator,
}

impl View for BenchmarkTracker {
    type V = TrackerView;

    closed spec fn view(&self) -> TrackerView {
        TrackerView {
            start: self.start_metrics@,
            current_operation: match self.current_operation {
                Some(sample) => Some(sample@),
                None => None,
            },
            completed: delta_views(self.completed_metrics@),
            phases: self.phases@,
        }
    }
}

impl BenchmarkTracker {
    /// The tracker of a run that starts at `now`.
    pub fn new(now: Reading) -> (tracker: BenchmarkTracker)
        ensures
            tracker@ == TrackerView::init(now),
    {
        let tracker = BenchmarkTracker {
            start_metrics: ResourceSample { name: "Total".to_owned(), reading: now },
            current_operation: None,
            completed_metrics: Vec::new(),
            phases: PhaseAggregator::new(),
        };
        proof {
            assert(tracker@.completed =~= Seq::<DeltaView>::empty());
        }
        tracker
    }

    /// Starts the operation `name` at `now`. An operation in progress is
    /// given up: nothing is recorded of it.
    pub fn start_operation(&mut self, name: &str, now: Reading)
        ensures
            final(self)@ == old(self)@.start_operation(name@, now),
    {
        self.current_operation = Some(ResourceSample { name: name.to_owned(), reading: now });
    }

    /// Finishes the operation in progress at `now`: what it cost since its
    /// start joins the finished operations, and every open phase takes the
    /// whole of it. Does nothing where no operation is in progress.
    pub fn finish_operation(&mut self, now: Reading)
        ensures
            final(self)@ == old(self)@.finish_operation(now),
    {
        if let Some(start_metrics) = self.current_operation.take() {
            self.finish_operation_internal(start_metrics, now);
        }
    }

    /// Records that the operation that started with `start_metrics` is
    /// finished at `now`.
    fn finish_operation_internal(&mut self, start_metrics: ResourceSample, now: Reading)
        ensures
            final(self)@ == old(self)@.record(start_metrics@, now),
    {
        let end_metrics = ResourceSample { name: start_metrics.name.clone(), reading: now };
        let diff_metrics = end_metrics.diff(&start_metrics);
        self.phases.fold(&diff_metrics);
        let ghost completed = delta_views(self.completed_metrics@);
        self.completed_metrics.push(diff_metrics);
        proof {
            assert(delta_views(self.completed_metrics@) =~= completed.push(
                TrackerView::cost_since(start_metrics@, now),
            ));
        }
    }

    /// Starts the phase `name` with a running total of zero. A phase of this
    /// name that is open starts anew.
    pub fn start_phase(&mut self, name: &str)
        ensures
            final(self)@ == old(self)@.start_phase(name@),
    {
        self.phases.start_phase(name);
    }

    /// Ends the phase `name` and keeps its total for the report. Does nothing
    /// where no phase of this name is open.
    pub fn end_phase(&mut self, name: &str)
        ensures
            final(self)@ == old(self)@.end_phase(name@),
    {
        self.phases.end_phase(name);
    }

    /// What the run cost from its start until `now`.
    pub fn get_total_metrics(&self, now: Reading) -> (total: MetricsDelta)
        ensures
            total@ == self@.total(now),
    {
        let current = ResourceSample { name: "Total".to_owned(), reading: now };
        current.diff(&self.start_metrics)
    }

    /// What the run has to report at `now`: the finished operations in the
    /// order in which they finished, the totals of the phases that ended in
    /// the order in which the phases were first started, and the total of the
    /// run. The tracker stays as it is.
    pub fn report(&self, now: Reading) -> (report: Report)
        ensures
            report@ == self@.report(now),
    {
        let total = self.get_total_metrics(now);
        let operations = self.completed_metrics.clone();
        Report { operations, phases: self.phases.totals(), total }
    }

    /// The finished operations, in the order in which they finished.
    pub fn completed_metrics(&self) -> (completed: &Vec<MetricsDelta>)
        ensures
            delta_views(completed@) == self@.completed,
    {
        &self.completed_metrics
    }

    /// The phases of the run.
    pub fn phases(&self) -> (phases: &PhaseAggregator)
        ensures
            phases@ == self@.phases,
    {
        &self.phases
    }

    /// The sample taken at the start of the operation in progress, if one is.
    pub fn current_operation(&self) -> (current: Option<&ResourceSample>)
        ensures
            match current {
                Some(sample) => self@.current_operation == Some(sample@),
                None => self@.current_operation is None,
            },
    {
        self.current_operation.as_ref()
    }

    /// The sample taken when the run started.
    pub fn start_metrics(&self) -> (start: &ResourceSample)
        ensures
            start@ == self@.start,
    {
        &self.start_metrics
    }
}

/// A phase during which two operations run, one after the other, ends with
/// what the two cost together, whichever of them ran first.
pub proof fn lemma_phase_total_of_two_operations(
    t: TrackerView,
    phase: Seq<char>,
    one: SampleView,
    one_end: Reading,
    other: SampleView,
    other_end: Reading,
)
    ensures
        ({
            let opened = t.start_phase(phase);
            let one_first = opened.start_operation(one.name, one.reading).finish_operation(
                one_end,
            ).start_operation(other.name, other.reading).finish_operation(other_end).end_phase(
                phase,
            );
            let other_first = opened.start_operation(other.name, other.reading).finish_operation(
                other_end,
            ).start_operation(one.name, one.reading).finish_operation(one_end).end_phase(phase);
            let total = DeltaView {
                name: phase,
                cost: TrackerView::cost_since(one, one_end).cost.combine(
                    TrackerView::cost_since(other, other_end).cost,
                ),
            };
            &&& one_first.phases.finished == t.phases.finished.push(total)
            &&& other_first.phases.finished == t.phases.finished.push(total)
        }),
{
    let first = TrackerView::cost_since(one, one_end).cost;
    let second = TrackerView::cost_since(other, other_end).cost;
    lemma_phase_total_is_combined_cost(t.phases, phase, first, second);
}

/// An operation that finishes while two phases are open counts in full for
/// both: the running total of each grows by the whole of what it cost.
pub proof fn lemma_operation_counts_in_full_for_both_phases(
    t: TrackerView,
    one: Seq<char>,
    other: Seq<char>,
    now: Reading,
)
    requires
        t.current_operation is Some,
        t.phases.open.dom().contains(one),
        t.phases.open.dom().contains(other),
    ensures
        ({
            let delta = TrackerView::cost_since(t.current_operation.unwrap(), now);
            let after = t.finish_operation(now);
            &&& after.completed == t.completed.push(delta)
            &&& after.phases.open.dom().contains(one)
            &&& after.phases.open.dom().contains(other)
            &&& after.phases.open[one] == t.phases.open[one].combine(delta.cost)
            &&& after.phases.open[other] == t.phases.open[other].combine(delta.cost)
            &&& after.end_phase(one).phases.finished.last() == DeltaView {
                name: one,
                cost: t.phases.open[one].combine(delta.cost),
            }
            &&& after.end_phase(other).phases.finished.last() == DeltaView {
                name: other,
                cost: t.phases.open[other].combine(delta.cost),
            }
        }),
{
    let delta = TrackerView::cost_since(t.current_operation.unwrap(), now);
    lemma_every_open_phase_takes_full_cost(t.phases, delta.cost);
}

/// Reporting changes nothing that a later report shows: two reports of the
/// same tracker show the same operations and the same phase totals, and
/// where they were made from the same reading they are the same report with
/// the same text.
pub proof fn lemma_report_is_repeatable(t: TrackerView, first: Reading, second: Reading)
    ensures
        t.report(first).operations == t.report(second).operations,
        t.report(first).phases == t.report(second).phases,
        first == second ==> t.report(first) == t.report(second) && t.report(first).text()
            == t.report(second).text(),
{
}

/// The finished operations only grow: whatever happens, the operations that
/// were finished before stay where they were.
pub proof fn lemma_finished_operations_only_grow(
    t: TrackerView,
    name: Seq<char>,
    now: Reading,
)
    ensures
        t.start_operation(name, now).completed == t.completed,
        t.completed.is_prefix_of(t.finish_operation(now).completed),
        t.start_phase(name).completed == t.completed,
        t.end_phase(name).completed == t.completed,
{
}

} // verus!
