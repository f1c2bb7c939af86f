use benchmark_tracker::metrics::{MetricsDelta, Reading};
use benchmark_tracker::tracker::BenchmarkTracker;

const MS: u64 = 1_000_000;

fn reading(timestamp: u64, user_time: u64, system_time: u64, max_resident_memory: u64) -> Reading {
    Reading { timestamp, user_time, system_time, max_resident_memory }
}

fn delta(name: &str, wall: u64, user: u64, system: u64, memory: u64) -> MetricsDelta {
    MetricsDelta {
        name: name.to_string(),
        wall_clock_time: wall,
        user_time: user,
        system_time: system,
        max_resident_memory: memory,
    }
}

#[test]
fn new_tracker_has_nothing_to_show() {
    let tracker = BenchmarkTracker::new(reading(5, 6, 7, 8));
    assert!(tracker.completed_metrics().is_empty());
    assert!(tracker.current_operation().is_none());
    assert!(tracker.phases().order().is_empty());
    assert!(tracker.phases().finished().is_empty());
    assert_eq!(tracker.start_metrics().name, "Total");
    assert_eq!(tracker.start_metrics().reading, reading(5, 6, 7, 8));
}

#[test]
fn operation_in_a_phase_counts_for_the_phase() {
    let mut tracker = BenchmarkTracker::new(reading(0, 0, 0, 0));
    tracker.start_phase("A");
    tracker.start_operation("x", reading(10 * MS, 100 * MS, 0, 0));
    tracker.finish_operation(reading(70 * MS, 150 * MS, 0, 0));
    assert_eq!(tracker.completed_metrics().len(), 1);
    assert_eq!(tracker.completed_metrics()[0].name, "x");
    assert_eq!(tracker.completed_metrics()[0].user_time, 50 * MS);
    tracker.end_phase("A");
    assert_eq!(tracker.phases().finished().len(), 1);
    assert_eq!(tracker.phases().finished()[0].name, "A");
    assert_eq!(tracker.phases().finished()[0].user_time, 50 * MS);
    assert_eq!(tracker.phases().finished()[0], delta("A", 60 * MS, 50 * MS, 0, 0));
}

#[test]
fn nested_phases_both_take_the_operation() {
    let mut tracker = BenchmarkTracker::new(reading(0, 0, 0, 0));
    tracker.start_phase("outer");
    tracker.start_phase("inner");
    tracker.start_operation("y", reading(MS, 5 * MS, 0, 0));
    tracker.finish_operation(reading(31 * MS, 25 * MS, 0, 0));
    tracker.end_phase("inner");
    tracker.end_phase("outer");
    let finished = tracker.phases().finished();
    assert_eq!(finished.len(), 2);
    assert_eq!(finished[0].name, "inner");
    assert_eq!(finished[0].user_time, 20 * MS);
    assert_eq!(finished[1].name, "outer");
    assert_eq!(finished[1].user_time, 20 * MS);
}

#[test]
fn finish_without_start_records_nothing() {
    let mut tracker = BenchmarkTracker::new(reading(0, 0, 0, 0));
    tracker.finish_operation(reading(10, 10, 10, 10));
    assert!(tracker.completed_metrics().is_empty());
    tracker.start_phase("P");
    tracker.finish_operation(reading(20, 20, 20, 20));
    assert!(tracker.completed_metrics().is_empty());
    assert_eq!(tracker.phases().running_total("P"), Some(MetricsDelta::zero("P".to_string())));
}

#[test]
fn finish_twice_records_once() {
    let mut tracker = BenchmarkTracker::new(reading(0, 0, 0, 0));
    tracker.start_operation("once", reading(1, 1, 1, 1));
    tracker.finish_operation(reading(4, 3, 2, 1));
    tracker.finish_operation(reading(9, 9, 9, 9));
    assert_eq!(tracker.completed_metrics(), &vec![delta("once", 3, 2, 1, 0)]);
    assert!(tracker.current_operation().is_none());
}

#[test]
fn operations_are_logged_in_the_order_they_finish() {
    let mut tracker = BenchmarkTracker::new(reading(0, 0, 0, 0));
    tracker.start_operation("first", reading(0, 0, 0, 100));
    tracker.finish_operation(reading(10, 4, 1, 150));
    tracker.start_operation("second", reading(10, 4, 1, 150));
    tracker.finish_operation(reading(25, 6, 2, 150));
    tracker.start_operation("third", reading(30, 6, 2, 150));
    tracker.finish_operation(reading(31, 7, 2, 900));
    assert_eq!(
        tracker.completed_metrics(),
        &vec![
            delta("first", 10, 4, 1, 50),
            delta("second", 15, 2, 1, 0),
            delta("third", 1, 1, 0, 750),
        ]
    );
}

#[test]
fn starting_again_gives_up_the_operation_in_progress() {
    let mut tracker = BenchmarkTracker::new(reading(0, 0, 0, 0));
    tracker.start_phase("P");
    tracker.start_operation("lost", reading(0, 0, 0, 0));
    assert_eq!(tracker.current_operation().unwrap().name, "lost");
    tracker.start_operation("kept", reading(100, 50, 5, 0));
    assert_eq!(tracker.current_operation().unwrap().name, "kept");
    assert!(tracker.completed_metrics().is_empty());
    tracker.finish_operation(reading(130, 60, 6, 0));
    assert_eq!(tracker.completed_metrics(), &vec![delta("kept", 30, 10, 1, 0)]);
    assert_eq!(tracker.phases().running_total("P"), Some(delta("P", 30, 10, 1, 0)));
}

#[test]
fn phase_total_combines_its_operations() {
    let mut tracker = BenchmarkTracker::new(reading(0, 0, 0, 0));
    tracker.start_phase("P");
    tracker.start_operation("o1", reading(0, 0, 0, 1_000));
    tracker.finish_operation(reading(10, 7, 2, 1_500));
    tracker.start_operation("o2", reading(10, 7, 2, 1_500));
    tracker.finish_operation(reading(40, 17, 3, 1_600));
    tracker.end_phase("P");
    let o1 = delta("o1", 10, 7, 2, 500);
    let o2 = delta("o2", 30, 10, 1, 100);
    assert_eq!(tracker.completed_metrics(), &vec![o1.clone(), o2.clone()]);
    let total = &tracker.phases().finished()[0];
    assert_eq!(total, &delta("P", 40, 17, 3, 500));
    assert_eq!(total, &MetricsDelta::zero("P".to_string()).combine(&o1).combine(&o2));
    assert_eq!(total, &MetricsDelta::zero("P".to_string()).combine(&o2).combine(&o1));
}

#[test]
fn phase_total_is_the_same_in_either_order_of_operations() {
    let mut one = BenchmarkTracker::new(reading(0, 0, 0, 0));
    one.start_phase("P");
    one.start_operation("a", reading(0, 0, 0, 0));
    one.finish_operation(reading(5, 3, 1, 64));
    one.start_operation("b", reading(100, 50, 10, 64));
    one.finish_operation(reading(190, 70, 15, 80));
    one.end_phase("P");

    let mut other = BenchmarkTracker::new(reading(0, 0, 0, 0));
    other.start_phase("P");
    other.start_operation("b", reading(100, 50, 10, 64));
    other.finish_operation(reading(190, 70, 15, 80));
    other.start_operation("a", reading(0, 0, 0, 0));
    other.finish_operation(reading(5, 3, 1, 64));
    other.end_phase("P");

    assert_eq!(one.phases().finished(), other.phases().finished());
    assert_eq!(one.phases().finished(), &vec![delta("P", 95, 23, 6, 64)]);
}

#[test]
fn overlapping_phases_each_take_the_whole_operation() {
    let mut tracker = BenchmarkTracker::new(reading(0, 0, 0, 0));
    tracker.start_phase("P1");
    tracker.start_operation("before", reading(0, 0, 0, 0));
    tracker.finish_operation(reading(8, 4, 2, 1));
    tracker.start_phase("P2");
    tracker.start_operation("shared", reading(10, 10, 10, 10));
    tracker.finish_operation(reading(110, 60, 30, 20));
    assert_eq!(tracker.phases().running_total("P1"), Some(delta("P1", 108, 54, 22, 10)));
    assert_eq!(tracker.phases().running_total("P2"), Some(delta("P2", 100, 50, 20, 10)));
    tracker.end_phase("P1");
    tracker.start_operation("after", reading(200, 100, 50, 20));
    tracker.finish_operation(reading(201, 101, 51, 20));
    tracker.end_phase("P2");
    assert_eq!(
        tracker.phases().finished(),
        &vec![delta("P1", 108, 54, 22, 10), delta("P2", 101, 51, 21, 10)]
    );
}

#[test]
fn operation_outside_of_phases_counts_for_none() {
    let mut tracker = BenchmarkTracker::new(reading(0, 0, 0, 0));
    tracker.start_operation("alone", reading(0, 0, 0, 0));
    tracker.finish_operation(reading(9, 9, 9, 9));
    tracker.start_phase("late");
    tracker.end_phase("late");
    assert_eq!(tracker.phases().finished(), &vec![delta("late", 0, 0, 0, 0)]);
    assert_eq!(tracker.completed_metrics().len(), 1);
}

#[test]
fn operation_started_before_a_phase_counts_in_full() {
    let mut tracker = BenchmarkTracker::new(reading(0, 0, 0, 0));
    tracker.start_operation("early", reading(0, 0, 0, 0));
    tracker.start_phase("P");
    tracker.finish_operation(reading(50, 40, 30, 20));
    tracker.end_phase("P");
    assert_eq!(tracker.phases().finished(), &vec![delta("P", 50, 40, 30, 20)]);
}

#[test]
fn ending_an_unknown_phase_changes_nothing() {
    let mut tracker = BenchmarkTracker::new(reading(0, 0, 0, 0));
    tracker.end_phase("never started");
    assert!(tracker.phases().finished().is_empty());
    assert!(tracker.phases().order().is_empty());
    tracker.start_phase("P");
    tracker.end_phase("Q");
    assert!(tracker.phases().finished().is_empty());
    assert!(tracker.phases().is_open("P"));
    assert!(!tracker.phases().is_open("Q"));
}

#[test]
fn ending_a_phase_twice_records_it_once() {
    let mut tracker = BenchmarkTracker::new(reading(0, 0, 0, 0));
    tracker.start_phase("P");
    tracker.end_phase("P");
    tracker.end_phase("P");
    assert_eq!(tracker.phases().finished().len(), 1);
    assert!(!tracker.phases().is_open("P"));
    assert_eq!(tracker.phases().running_total("P"), None);
}

#[test]
fn starting_an_open_phase_again_resets_its_total() {
    let mut tracker = BenchmarkTracker::new(reading(0, 0, 0, 0));
    tracker.start_phase("P");
    tracker.start_phase("Q");
    tracker.start_operation("o1", reading(0, 0, 0, 0));
    tracker.finish_operation(reading(10, 10, 10, 10));
    tracker.start_phase("P");
    assert_eq!(tracker.phases().running_total("P"), Some(delta("P", 0, 0, 0, 0)));
    assert_eq!(tracker.phases().running_total("Q"), Some(delta("Q", 10, 10, 10, 10)));
    tracker.start_operation("o2", reading(10, 10, 10, 10));
    tracker.finish_operation(reading(13, 12, 11, 10));
    tracker.end_phase("P");
    tracker.end_phase("Q");
    assert_eq!(
        tracker.phases().finished(),
        &vec![delta("P", 3, 2, 1, 0), delta("Q", 13, 12, 11, 10)]
    );
    assert_eq!(tracker.phases().order(), &vec!["P".to_string(), "Q".to_string()]);
}

#[test]
fn phase_order_keeps_the_first_start_of_each_name() {
    let mut tracker = BenchmarkTracker::new(reading(0, 0, 0, 0));
    tracker.start_phase("b");
    tracker.start_phase("a");
    tracker.end_phase("b");
    tracker.start_phase("c");
    tracker.start_phase("b");
    tracker.start_phase("a");
    assert_eq!(
        tracker.phases().order(),
        &vec!["b".to_string(), "a".to_string(), "c".to_string()]
    );
}

#[test]
fn phase_names_are_told_apart_exactly() {
    let mut tracker = BenchmarkTracker::new(reading(0, 0, 0, 0));
    tracker.start_phase("phase");
    tracker.start_phase("Phase");
    tracker.start_phase("phase ");
    tracker.start_phase("");
    assert_eq!(tracker.phases().order().len(), 4);
    tracker.end_phase("");
    assert!(tracker.phases().is_open("phase"));
    assert!(tracker.phases().is_open("Phase"));
    assert!(tracker.phases().is_open("phase "));
    assert!(!tracker.phases().is_open(""));
    assert_eq!(tracker.phases().finished()[0].name, "");
}

#[test]
fn totals_come_in_the_order_of_first_start() {
    let mut tracker = BenchmarkTracker::new(reading(0, 0, 0, 0));
    tracker.start_phase("first");
    tracker.start_phase("second");
    tracker.start_phase("third");
    tracker.start_operation("op", reading(0, 0, 0, 0));
    tracker.finish_operation(reading(1, 1, 1, 1));
    tracker.end_phase("third");
    tracker.start_operation("op", reading(1, 1, 1, 1));
    tracker.finish_operation(reading(3, 3, 3, 3));
    tracker.end_phase("first");
    tracker.end_phase("second");
    assert_eq!(
        tracker.phases().finished(),
        &vec![delta("third", 1, 1, 1, 1), delta("first", 3, 3, 3, 2), delta("second", 3, 3, 3, 2)]
    );
    assert_eq!(
        tracker.phases().totals(),
        vec![delta("first", 3, 3, 3, 2), delta("second", 3, 3, 3, 2), delta("third", 1, 1, 1, 1)]
    );
}

#[test]
fn open_phases_are_not_among_the_totals() {
    let mut tracker = BenchmarkTracker::new(reading(0, 0, 0, 0));
    tracker.start_phase("open");
    tracker.start_phase("closed");
    tracker.end_phase("closed");
    assert_eq!(tracker.phases().totals(), vec![delta("closed", 0, 0, 0, 0)]);
    let report = tracker.report(reading(0, 0, 0, 0));
    assert_eq!(report.phases, vec![delta("closed", 0, 0, 0, 0)]);
}

#[test]
fn phase_that_ran_twice_shows_its_latest_total() {
    let mut tracker = BenchmarkTracker::new(reading(0, 0, 0, 0));
    tracker.start_phase("again");
    tracker.start_operation("a", reading(0, 0, 0, 0));
    tracker.finish_operation(reading(5, 5, 5, 5));
    tracker.end_phase("again");
    tracker.start_phase("other");
    tracker.start_phase("again");
    tracker.start_operation("b", reading(10, 10, 10, 10));
    tracker.finish_operation(reading(17, 17, 17, 17));
    tracker.end_phase("again");
    tracker.end_phase("other");
    assert_eq!(tracker.phases().finished().len(), 3);
    assert_eq!(
        tracker.phases().totals(),
        vec![delta("again", 7, 7, 7, 7), delta("other", 7, 7, 7, 7)]
    );
}

#[test]
fn total_runs_from_the_start_of_the_run() {
    let tracker = BenchmarkTracker::new(reading(1_000, 200, 30, 4_000));
    assert_eq!(
        tracker.get_total_metrics(reading(9_000, 700, 80, 6_000)),
        delta("Total", 8_000, 500, 50, 2_000)
    );
    assert_eq!(tracker.get_total_metrics(reading(0, 0, 0, 0)), delta("Total", 0, 0, 0, 0));
}

#[test]
fn report_holds_operations_phases_and_total() {
    let mut tracker = BenchmarkTracker::new(reading(0, 0, 0, 0));
    tracker.start_phase("setup");
    tracker.start_operation("load", reading(1, 1, 0, 10));
    tracker.finish_operation(reading(6, 4, 1, 30));
    tracker.end_phase("setup");
    tracker.start_phase("work");
    tracker.start_operation("run", reading(6, 4, 1, 30));
    tracker.finish_operation(reading(26, 20, 2, 30));
    tracker.end_phase("work");
    let report = tracker.report(reading(30, 21, 3, 30));
    assert_eq!(report.operations, vec![delta("load", 5, 3, 1, 20), delta("run", 20, 16, 1, 0)]);
    assert_eq!(report.phases, vec![delta("setup", 5, 3, 1, 20), delta("work", 20, 16, 1, 0)]);
    assert_eq!(report.total, delta("Total", 30, 21, 3, 30));
}

#[test]
fn reporting_twice_gives_the_same_report() {
    let mut tracker = BenchmarkTracker::new(reading(0, 0, 0, 0));
    tracker.start_phase("P");
    tracker.start_operation("op", reading(2, 1, 1, 0));
    tracker.finish_operation(reading(12, 6, 2, 0));
    tracker.end_phase("P");
    tracker.start_operation("pending", reading(12, 6, 2, 0));
    let now = reading(20, 9, 3, 0);
    let first = tracker.report(now);
    let second = tracker.report(now);
    assert_eq!(first, second);
    assert_eq!(first.render(), second.render());
    let later = tracker.report(reading(50, 10, 4, 0));
    assert_eq!(first.operations, later.operations);
    assert_eq!(first.phases, later.phases);
    assert_eq!(later.total, delta("Total", 50, 10, 4, 0));
    assert_eq!(tracker.current_operation().unwrap().name, "pending");
    assert_eq!(tracker.completed_metrics().len(), 1);
}

#[test]
fn phase_totals_stop_at_the_largest_value() {
    let mut tracker = BenchmarkTracker::new(reading(0, 0, 0, 0));
    tracker.start_phase("huge");
    tracker.start_operation("a", reading(0, 0, 0, 0));
    tracker.finish_operation(reading(u64::MAX, u64::MAX - 1, 7, 3));
    tracker.start_operation("b", reading(0, 0, 0, 0));
    tracker.finish_operation(reading(1, 5, 7, 2));
    tracker.end_phase("huge");
    assert_eq!(tracker.phases().finished(), &vec![delta("huge", u64::MAX, u64::MAX, 14, 3)]);
}

#[test]
fn clock_that_went_back_gives_a_zero_figure() {
    let mut tracker = BenchmarkTracker::new(reading(100, 100, 100, 100));
    tracker.start_operation("skew", reading(500, 50, 70, 10));
    tracker.finish_operation(reading(400, 60, 60, 5));
    assert_eq!(tracker.completed_metrics(), &vec![delta("skew", 0, 10, 0, 0)]);
    assert_eq!(tracker.get_total_metrics(reading(50, 150, 90, 100)), delta("Total", 0, 50, 0, 0));
}
