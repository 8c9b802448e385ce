use load_scheduler::data_model::event::Event;
use load_scheduler::data_model::graph::DescreteGraph;
use load_scheduler::data_model::task::Task;
use load_scheduler::data_model::time::{Milliseconds, TimeUnit, Timespan};
use load_scheduler::error::ErrorKind;
use load_scheduler::scheduling::{Scheduler, SchedulerState, SchedulingReport};

fn span(start: i64, end: i64) -> Timespan {
    Timespan::new(TimeUnit(start), TimeUnit(end)).unwrap()
}

fn task(id: i64, effect: u32, duration: i64, window: Timespan) -> Task {
    Task { id, device_id: id + 1_000, timespan: window, duration: Milliseconds(duration), effect }
}

fn one_bucket() -> Scheduler {
    Scheduler::new(DescreteGraph::build(vec![(5, span(0, 100))], Milliseconds(100)).unwrap())
}

fn day() -> DescreteGraph {
    DescreteGraph::build(
        vec![(4, span(0, 100)), (9, span(100, 200)), (9, span(200, 300)), (2, span(300, 360))],
        Milliseconds(100),
    )
    .unwrap()
}

fn capacities(scheduler: &Scheduler) -> Vec<i32> {
    let mut out = Vec::new();
    for bucket in scheduler.get_graph().get_values() {
        out.push(bucket.0);
    }
    out
}

fn start_times(events: &Vec<Event>) -> Vec<i64> {
    let mut out = Vec::new();
    for event in events {
        out.push(event.start_time.0);
    }
    out
}

#[test]
fn one_task_takes_the_only_bucket() {
    let mut scheduler = one_bucket();
    scheduler.add_task(task(1, 2, 50, span(0, 100)));
    let report = scheduler.schedule().unwrap();
    assert_eq!(
        report.events,
        vec![Event { id: 0, device_id: 1_001, version_nr: 1, start_time: TimeUnit(0) }]
    );
    assert!(report.unscheduled.is_empty());
    assert_eq!(capacities(&scheduler), vec![3]);
    assert_eq!(scheduler.get_events(), &report.events);
    assert_eq!(scheduler.get_state(), SchedulerState::Completed);
}

#[test]
fn second_task_finds_too_little_capacity() {
    let mut scheduler = one_bucket();
    scheduler.add_task(task(1, 3, 50, span(0, 100)));
    scheduler.add_task(task(2, 3, 50, span(0, 100)));
    let report = scheduler.schedule().unwrap();
    assert_eq!(
        report.events,
        vec![Event { id: 0, device_id: 1_001, version_nr: 1, start_time: TimeUnit(0) }]
    );
    assert_eq!(report.unscheduled, vec![(2, ErrorKind::NoFeasibleSlot)]);
    assert_eq!(capacities(&scheduler), vec![2]);
    assert_eq!(scheduler.get_state(), SchedulerState::PartiallyScheduled);
}

#[test]
fn window_outside_every_bucket_leaves_the_graph_alone() {
    let mut scheduler = one_bucket();
    scheduler.add_task(task(1, 2, 50, span(100, 300)));
    let report = scheduler.schedule().unwrap();
    assert!(report.events.is_empty());
    assert_eq!(report.unscheduled, vec![(1, ErrorKind::NoFeasibleSlot)]);
    assert_eq!(capacities(&scheduler), vec![5]);
    assert!(scheduler.get_events().is_empty());
    assert_eq!(scheduler.get_state(), SchedulerState::PartiallyScheduled);
}

#[test]
fn window_that_cuts_the_bucket_is_not_enough() {
    let mut scheduler = one_bucket();
    scheduler.add_task(task(1, 2, 50, span(10, 100)));
    scheduler.add_task(task(2, 2, 50, span(0, 99)));
    let report = scheduler.schedule().unwrap();
    assert!(report.events.is_empty());
    assert_eq!(
        report.unscheduled,
        vec![(1, ErrorKind::NoFeasibleSlot), (2, ErrorKind::NoFeasibleSlot)]
    );
}

#[test]
fn no_tasks_is_an_error() {
    let mut scheduler = one_bucket();
    assert_eq!(scheduler.schedule(), Err(ErrorKind::NoTasksToSchedule));
    assert_eq!(scheduler.get_state(), SchedulerState::Idle);
    assert!(scheduler.get_events().is_empty());
    assert_eq!(capacities(&scheduler), vec![5]);
    assert_eq!(scheduler.schedule(), Err(ErrorKind::NoTasksToSchedule));
}

#[test]
fn second_run_without_new_tasks_is_empty() {
    let mut scheduler = one_bucket();
    scheduler.add_task(task(1, 2, 50, span(0, 100)));
    scheduler.add_task(task(2, 9, 50, span(0, 100)));
    let first = scheduler.schedule().unwrap();
    assert_eq!(first.events.len(), 1);
    assert_eq!(first.unscheduled.len(), 1);
    let events_before = scheduler.get_events().clone();
    let second = scheduler.schedule().unwrap();
    assert_eq!(second, SchedulingReport { events: Vec::new(), unscheduled: Vec::new() });
    assert_eq!(scheduler.get_events(), &events_before);
    assert_eq!(capacities(&scheduler), vec![3]);
    assert_eq!(scheduler.get_state(), SchedulerState::Completed);
}

#[test]
fn later_run_plans_only_new_tasks_on_what_is_left() {
    let mut scheduler = one_bucket();
    scheduler.add_task(task(1, 2, 50, span(0, 100)));
    scheduler.schedule().unwrap();
    assert_eq!(scheduler.pending_count(), 0);
    scheduler.add_task(task(2, 3, 50, span(0, 100)));
    scheduler.add_task(task(3, 1, 50, span(0, 100)));
    assert_eq!(scheduler.pending_count(), 2);
    let report = scheduler.schedule().unwrap();
    assert_eq!(
        report.events,
        vec![Event { id: 1, device_id: 1_002, version_nr: 1, start_time: TimeUnit(0) }]
    );
    assert_eq!(report.unscheduled, vec![(3, ErrorKind::NoFeasibleSlot)]);
    assert_eq!(capacities(&scheduler), vec![0]);
    assert_eq!(scheduler.get_events().len(), 2);
    assert_eq!(scheduler.get_placed(), &vec![1, 2]);
}

#[test]
fn tasks_are_planned_by_effect_then_id() {
    let mut scheduler = Scheduler::new(day());
    scheduler.add_task(task(7, 1, 10, span(0, 360)));
    scheduler.add_task(task(5, 6, 10, span(0, 360)));
    scheduler.add_task(task(3, 6, 10, span(0, 360)));
    scheduler.add_task(task(9, 8, 10, span(0, 360)));
    let report = scheduler.schedule().unwrap();
    // 9 takes bucket 1 (9 -> 1), 3 takes bucket 2 (9 -> 3), 5 finds at most 4 and
    // stays out, 7 takes bucket 0 (4 -> 3).
    assert_eq!(scheduler.get_placed(), &vec![9, 3, 7]);
    assert_eq!(start_times(&report.events), vec![100, 200, 0]);
    assert_eq!(report.unscheduled, vec![(5, ErrorKind::NoFeasibleSlot)]);
    assert_eq!(capacities(&scheduler), vec![3, 1, 3, 2]);
}

#[test]
fn equal_capacity_goes_to_the_earliest_bucket() {
    let graph = DescreteGraph::build(
        vec![(5, span(0, 10)), (5, span(10, 20)), (5, span(20, 30))],
        Milliseconds(10),
    )
    .unwrap();
    let mut scheduler = Scheduler::new(graph);
    scheduler.add_task(task(1, 1, 10, span(0, 30)));
    scheduler.add_task(task(2, 1, 10, span(0, 30)));
    scheduler.add_task(task(3, 1, 10, span(0, 30)));
    scheduler.add_task(task(4, 1, 10, span(0, 30)));
    let report = scheduler.schedule().unwrap();
    assert_eq!(start_times(&report.events), vec![0, 10, 20, 0]);
    assert_eq!(capacities(&scheduler), vec![3, 4, 4]);
}

#[test]
fn same_tasks_in_another_order_give_the_same_events() {
    let tasks = vec![
        task(1, 3, 40, span(0, 360)),
        task(2, 3, 100, span(100, 300)),
        task(3, 5, 60, span(250, 360)),
        task(4, 1, 10, span(0, 100)),
        task(5, 9, 10, span(0, 360)),
    ];
    let mut forward = Scheduler::new(day());
    for t in tasks.iter() {
        forward.add_task(*t);
    }
    let mut backward = Scheduler::new(day());
    for t in tasks.iter().rev() {
        backward.add_task(*t);
    }
    let first = forward.schedule().unwrap();
    let second = backward.schedule().unwrap();
    assert_eq!(first, second);
    assert_eq!(forward.get_events(), backward.get_events());
    assert_eq!(capacities(&forward), capacities(&backward));
    // 5 takes bucket 1 (9 -> 0), 3 finds only the last bucket with 2 and stays out,
    // 1 and 2 take bucket 2 (9 -> 6 -> 3), 4 takes bucket 0 (4 -> 3).
    assert_eq!(start_times(&first.events), vec![100, 200, 200, 0]);
    assert_eq!(capacities(&forward), vec![3, 0, 3, 2]);
    assert_eq!(first.unscheduled, vec![(3, ErrorKind::NoFeasibleSlot)]);
}

#[test]
fn same_input_twice_gives_the_same_report() {
    let mut one = Scheduler::new(day());
    let mut other = Scheduler::new(day());
    for scheduler in [&mut one, &mut other] {
        scheduler.add_task(task(1, 3, 40, span(0, 360)));
        scheduler.add_task(task(1, 3, 40, span(100, 360)));
        scheduler.add_task(task(2, 4, 40, span(0, 360)));
    }
    assert_eq!(one.schedule(), other.schedule());
    assert_eq!(one.get_events(), other.get_events());
}

#[test]
fn planning_a_task_again_raises_its_version() {
    let mut scheduler = Scheduler::new(day());
    scheduler.add_task(task(4, 2, 50, span(0, 360)));
    scheduler.add_task(task(8, 1, 50, span(0, 360)));
    let first = scheduler.schedule().unwrap();
    assert_eq!(first.events[0].version_nr, 1);
    assert_eq!(first.events[1].version_nr, 1);
    scheduler.add_task(task(4, 2, 50, span(0, 360)));
    let second = scheduler.schedule().unwrap();
    assert_eq!(
        second.events,
        vec![Event { id: 2, device_id: 1_004, version_nr: 2, start_time: TimeUnit(200) }]
    );
    scheduler.add_task(task(4, 1, 50, span(0, 100)));
    scheduler.add_task(task(8, 1, 50, span(0, 100)));
    let third = scheduler.schedule().unwrap();
    assert_eq!(third.events[0].version_nr, 3);
    assert_eq!(third.events[1].version_nr, 2);
    let events = scheduler.get_events();
    let placed = scheduler.get_placed();
    assert_eq!(placed, &vec![4, 8, 4, 4, 8]);
    for later in 0..events.len() {
        assert_eq!(events[later].id, later as i64);
        for earlier in 0..later {
            if placed[earlier] == placed[later] {
                assert!(events[earlier].version_nr < events[later].version_nr);
            }
        }
    }
}

#[test]
fn a_task_that_found_no_slot_does_not_count_as_a_version() {
    let mut scheduler = one_bucket();
    scheduler.add_task(task(1, 6, 50, span(0, 100)));
    let first = scheduler.schedule().unwrap();
    assert_eq!(first.unscheduled, vec![(1, ErrorKind::NoFeasibleSlot)]);
    scheduler.add_task(task(1, 5, 50, span(0, 100)));
    let second = scheduler.schedule().unwrap();
    assert_eq!(
        second.events,
        vec![Event { id: 0, device_id: 1_001, version_nr: 1, start_time: TimeUnit(0) }]
    );
    assert_eq!(capacities(&scheduler), vec![0]);
}

#[test]
fn deficits_are_planned_down_to_the_floor() {
    let graph =
        DescreteGraph::build_with_floor(vec![(1, span(0, 100))], Milliseconds(100), -3).unwrap();
    let mut scheduler = Scheduler::new(graph);
    scheduler.add_task(task(1, 2, 50, span(0, 100)));
    scheduler.add_task(task(2, 2, 50, span(0, 100)));
    scheduler.add_task(task(3, 2, 50, span(0, 100)));
    let report = scheduler.schedule().unwrap();
    assert_eq!(report.events.len(), 2);
    assert_eq!(report.unscheduled, vec![(3, ErrorKind::NoFeasibleSlot)]);
    assert_eq!(capacities(&scheduler), vec![-3]);
}

#[test]
fn task_longer_than_any_bucket_is_unscheduled() {
    let mut scheduler = Scheduler::new(day());
    scheduler.add_task(task(1, 1, 101, span(0, 360)));
    let report = scheduler.schedule().unwrap();
    assert_eq!(report.unscheduled, vec![(1, ErrorKind::NoFeasibleSlot)]);
    assert_eq!(capacities(&scheduler), vec![4, 9, 9, 2]);
}

#[test]
fn task_without_effect_is_placed_and_takes_nothing() {
    let mut scheduler = one_bucket();
    scheduler.add_task(task(1, 0, 50, span(0, 100)));
    let report = scheduler.schedule().unwrap();
    assert_eq!(report.events.len(), 1);
    assert_eq!(capacities(&scheduler), vec![5]);
}

#[test]
fn adding_a_task_changes_nothing_else() {
    let mut scheduler = one_bucket();
    assert_eq!(scheduler.task_count(), 0);
    scheduler.add_task(task(1, 2, 50, span(0, 100)));
    assert_eq!(scheduler.task_count(), 1);
    assert_eq!(scheduler.pending_count(), 1);
    assert!(scheduler.get_events().is_empty());
    assert_eq!(capacities(&scheduler), vec![5]);
    assert_eq!(scheduler.get_state(), SchedulerState::Idle);
}

#[test]
fn state_follows_the_last_run() {
    let mut scheduler = one_bucket();
    assert_eq!(scheduler.get_state(), SchedulerState::Idle);
    scheduler.add_task(task(1, 9, 50, span(0, 100)));
    scheduler.schedule().unwrap();
    assert_eq!(scheduler.get_state(), SchedulerState::PartiallyScheduled);
    scheduler.add_task(task(2, 1, 50, span(0, 100)));
    assert_eq!(scheduler.get_state(), SchedulerState::PartiallyScheduled);
    scheduler.schedule().unwrap();
    assert_eq!(scheduler.get_state(), SchedulerState::Completed);
}

#[test]
fn schedule_naive_runs_a_pass() {
    let mut scheduler = one_bucket();
    assert_eq!(scheduler.schedule_naive(), Err("No tasks to schedule"));
    scheduler.add_task(task(1, 2, 50, span(0, 100)));
    assert_eq!(scheduler.schedule_naive(), Ok(()));
    assert_eq!(
        scheduler.get_events(),
        &vec![Event { id: 0, device_id: 1_001, version_nr: 1, start_time: TimeUnit(0) }]
    );
    assert_eq!(capacities(&scheduler), vec![3]);
    assert_eq!(scheduler.schedule_naive(), Ok(()));
    assert_eq!(scheduler.get_events().len(), 1);
}

#[test]
fn schedule_on_an_empty_graph_places_nothing() {
    let mut scheduler =
        Scheduler::new(DescreteGraph::build(Vec::new(), Milliseconds(10)).unwrap());
    scheduler.add_task(task(1, 0, 0, span(0, 100)));
    let report = scheduler.schedule().unwrap();
    assert!(report.events.is_empty());
    assert_eq!(report.unscheduled, vec![(1, ErrorKind::NoFeasibleSlot)]);
}
