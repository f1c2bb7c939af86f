use benchmark_tracker::concurrent::ConcurrentTracker;
use benchmark_tracker::metrics::{MetricsDelta, Reading};

fn reading(timestamp: u64, user_time: u64, system_time: u64, max_resident_memory: u64) -> Reading {
    Reading { timestamp, user_time, system_time, max_resident_memory }
}

fn delta(name: &str, wall: u64, user: u64, system: u64, memory: u64) -> MetricsDelta {
    MetricsDelta {
        name: name.to_string(),
        wall_clock_time: wall,
        user_time: user,
        system_time: system,
        max_resident_memory: memory,
    }
}

#[test]
fn threads_keep_their_own_operations() {
    let mut tracker = ConcurrentTracker::new(reading(0, 0, 0, 0));
    tracker.start_operation(1, "one", reading(10, 1, 0, 0));
    tracker.start_operation(2, "two", reading(20, 2, 0, 0));
    assert_eq!(tracker.operation_in_progress(1).unwrap().name, "one");
    assert_eq!(tracker.operation_in_progress(2).unwrap().name, "two");
    assert!(tracker.operation_in_progress(3).is_none());
    assert!(tracker.completed_metrics().is_empty());
    assert!(tracker.finish_operation(1, reading(30, 9, 0, 0)));
    assert!(tracker.operation_in_progress(1).is_none());
    assert_eq!(tracker.operation_in_progress(2).unwrap().name, "two");
    assert!(tracker.finish_operation(2, reading(50, 12, 0, 0)));
    assert_eq!(
        tracker.completed_metrics(),
        &vec![delta("one", 20, 8, 0, 0), delta("two", 30, 10, 0, 0)]
    );
}

#[test]
fn finish_on_an_idle_thread_is_reported_and_changes_nothing() {
    let mut tracker = ConcurrentTracker::new(reading(0, 0, 0, 0));
    tracker.start_phase("P");
    tracker.start_operation(7, "busy", reading(1, 1, 1, 1));
    assert!(!tracker.finish_operation(8, reading(5, 5, 5, 5)));
    assert!(tracker.completed_metrics().is_empty());
    assert_eq!(tracker.phases().running_total("P"), Some(delta("P", 0, 0, 0, 0)));
    assert_eq!(tracker.operation_in_progress(7).unwrap().name, "busy");
}

#[test]
fn every_finished_operation_is_logged_once() {
    let mut tracker = ConcurrentTracker::new(reading(0, 0, 0, 0));
    tracker.start_operation(1, "a", reading(0, 0, 0, 0));
    tracker.start_operation(2, "b", reading(0, 0, 0, 0));
    tracker.start_operation(3, "c", reading(0, 0, 0, 0));
    assert!(tracker.finish_operation(2, reading(2, 2, 2, 2)));
    assert!(tracker.finish_operation(3, reading(3, 3, 3, 3)));
    assert!(tracker.finish_operation(1, reading(1, 1, 1, 1)));
    assert!(!tracker.finish_operation(1, reading(9, 9, 9, 9)));
    assert!(!tracker.finish_operation(2, reading(9, 9, 9, 9)));
    assert!(!tracker.finish_operation(3, reading(9, 9, 9, 9)));
    assert_eq!(
        tracker.completed_metrics(),
        &vec![delta("b", 2, 2, 2, 2), delta("c", 3, 3, 3, 3), delta("a", 1, 1, 1, 1)]
    );
}

#[test]
fn starting_again_finishes_the_stale_operation_first() {
    let mut tracker = ConcurrentTracker::new(reading(0, 0, 0, 0));
    tracker.start_phase("P");
    tracker.start_operation(4, "stale", reading(10, 5, 1, 0));
    tracker.start_operation(4, "fresh", reading(40, 25, 2, 8));
    assert_eq!(tracker.completed_metrics(), &vec![delta("stale", 30, 20, 1, 8)]);
    assert_eq!(tracker.phases().running_total("P"), Some(delta("P", 30, 20, 1, 8)));
    let current = tracker.operation_in_progress(4).unwrap();
    assert_eq!(current.name, "fresh");
    assert_eq!(current.reading, reading(40, 25, 2, 8));
    assert!(tracker.finish_operation(4, reading(45, 26, 2, 8)));
    assert_eq!(
        tracker.completed_metrics(),
        &vec![delta("stale", 30, 20, 1, 8), delta("fresh", 5, 1, 0, 0)]
    );
    assert_eq!(tracker.phases().running_total("P"), Some(delta("P", 35, 21, 1, 8)));
}

#[test]
fn phase_total_does_not_depend_on_which_thread_finishes_first() {
    let mut one = ConcurrentTracker::new(reading(0, 0, 0, 0));
    one.start_operation(1, "o1", reading(0, 0, 0, 0));
    one.start_operation(2, "o2", reading(5, 1, 1, 0));
    one.start_phase("P");
    one.finish_operation(1, reading(100, 40, 3, 16));
    one.finish_operation(2, reading(130, 60, 4, 32));
    one.end_phase("P");

    let mut other = ConcurrentTracker::new(reading(0, 0, 0, 0));
    other.start_operation(1, "o1", reading(0, 0, 0, 0));
    other.start_operation(2, "o2", reading(5, 1, 1, 0));
    other.start_phase("P");
    other.finish_operation(2, reading(130, 60, 4, 32));
    other.finish_operation(1, reading(100, 40, 3, 16));
    other.end_phase("P");

    let o1 = delta("o1", 100, 40, 3, 16);
    let o2 = delta("o2", 125, 59, 3, 32);
    assert_eq!(one.completed_metrics(), &vec![o1.clone(), o2.clone()]);
    assert_eq!(other.completed_metrics(), &vec![o2.clone(), o1.clone()]);
    assert_eq!(one.phases().finished(), other.phases().finished());
    assert_eq!(one.phases().finished(), &vec![delta("P", 225, 99, 6, 32)]);
    assert_eq!(
        one.phases().finished()[0],
        MetricsDelta::zero("P".to_string()).combine(&o1).combine(&o2)
    );
}

#[test]
fn overlapping_phases_take_operations_of_all_threads() {
    let mut tracker = ConcurrentTracker::new(reading(0, 0, 0, 0));
    tracker.start_phase("outer");
    tracker.start_operation(1, "a", reading(0, 0, 0, 0));
    tracker.start_phase("inner");
    tracker.start_operation(2, "b", reading(0, 0, 0, 0));
    tracker.finish_operation(1, reading(10, 10, 0, 0));
    tracker.end_phase("inner");
    tracker.finish_operation(2, reading(25, 5, 0, 0));
    tracker.end_phase("outer");
    let report = tracker.report(reading(30, 15, 0, 0));
    assert_eq!(report.operations, vec![delta("a", 10, 10, 0, 0), delta("b", 25, 5, 0, 0)]);
    assert_eq!(report.phases, vec![delta("outer", 35, 15, 0, 0), delta("inner", 10, 10, 0, 0)]);
    assert_eq!(report.total, delta("Total", 30, 15, 0, 0));
    assert_eq!(tracker.get_total_metrics(reading(30, 15, 0, 0)), report.total);
    assert_eq!(tracker.start_metrics().name, "Total");
}

#[test]
fn operations_left_in_progress_are_not_reported() {
    let mut tracker = ConcurrentTracker::new(reading(0, 0, 0, 0));
    tracker.start_phase("never ended");
    tracker.start_operation(1, "never finished", reading(0, 0, 0, 0));
    let report = tracker.report(reading(10, 10, 10, 10));
    assert!(report.operations.is_empty());
    assert!(report.phases.is_empty());
    assert_eq!(report.total, delta("Total", 10, 10, 10, 10));
    assert_eq!(tracker.report(reading(10, 10, 10, 10)), report);
}

#[test]
fn one_thread_tracks_like_the_plain_tracker() {
    let mut plain = benchmark_tracker::tracker::BenchmarkTracker::new(reading(3, 2, 1, 0));
    let mut threaded = ConcurrentTracker::new(reading(3, 2, 1, 0));
    plain.start_phase("P");
    threaded.start_phase("P");
    plain.start_operation("a", reading(10, 4, 2, 16));
    threaded.start_operation(9, "a", reading(10, 4, 2, 16));
    plain.finish_operation(reading(25, 14, 3, 64));
    threaded.finish_operation(9, reading(25, 14, 3, 64));
    plain.start_phase("Q");
    threaded.start_phase("Q");
    plain.finish_operation(reading(30, 15, 3, 64));
    threaded.finish_operation(9, reading(30, 15, 3, 64));
    plain.start_operation("b", reading(40, 20, 4, 64));
    threaded.start_operation(9, "b", reading(40, 20, 4, 64));
    plain.end_phase("P");
    threaded.end_phase("P");
    plain.finish_operation(reading(45, 24, 4, 128));
    threaded.finish_operation(9, reading(45, 24, 4, 128));
    plain.end_phase("Q");
    threaded.end_phase("Q");
    assert_eq!(plain.completed_metrics(), threaded.completed_metrics());
    assert_eq!(plain.phases().finished(), threaded.phases().finished());
    assert_eq!(plain.phases().order(), threaded.phases().order());
    let now = reading(50, 25, 5, 128);
    assert_eq!(plain.report(now), threaded.report(now));
    assert_eq!(plain.report(now).render(), threaded.report(now).render());
    assert_eq!(
        plain.report(now).phases,
        vec![delta("P", 15, 10, 1, 48), delta("Q", 5, 4, 0, 64)]
    );
}

#[test]
fn phase_total_of_three_operations_is_the_same_in_every_order() {
    let ends = [
        (1u64, reading(100, 40, 3, 16)),
        (2u64, reading(130, 60, 4, 32)),
        (3u64, reading(90, 10, 9, 8)),
    ];
    let orders: [[usize; 3]; 6] =
        [[0, 1, 2], [0, 2, 1], [1, 0, 2], [1, 2, 0], [2, 0, 1], [2, 1, 0]];
    for order in orders {
        let mut tracker = ConcurrentTracker::new(reading(0, 0, 0, 0));
        tracker.start_phase("P");
        tracker.start_operation(1, "o1", reading(0, 0, 0, 0));
        tracker.start_operation(2, "o2", reading(5, 1, 1, 0));
        tracker.start_operation(3, "o3", reading(7, 2, 2, 4));
        for at in order {
            let (thread, end) = ends[at];
            assert!(tracker.finish_operation(thread, end));
        }
        tracker.end_phase("P");
        assert_eq!(tracker.completed_metrics().len(), 3);
        assert_eq!(tracker.phases().finished(), &vec![delta("P", 308, 107, 13, 32)]);
    }
}
