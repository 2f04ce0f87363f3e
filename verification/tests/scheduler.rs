use skedgy::{
    dispatch_list, CronSchedule, Metadata, SkedgyCommand, SkedgyConfig, SkedgyScheduler,
    SkedgyTask, TaskKind, TickPlan,
};
use std::sync::Arc;

#[derive(Debug, PartialEq)]
struct Probe(u32);

const T0: i64 = 1_700_000_000_000;
const EVERY_SECOND: &str = "0/1 * * * * * *";

fn config(look_ahead: u64) -> SkedgyConfig {
    SkedgyConfig { look_ahead_duration: look_ahead }
}

fn at(id: &str, t: i64, n: u32) -> SkedgyTask<Probe> {
    SkedgyTask::new(id.to_string(), TaskKind::At(t), Arc::new(Probe(n)))
}

fn after(id: &str, d: u64, n: u32) -> SkedgyTask<Probe> {
    SkedgyTask::new(id.to_string(), TaskKind::In(d), Arc::new(Probe(n)))
}

fn cron(id: &str, pattern: &str, n: u32) -> SkedgyTask<Probe> {
    let schedule = CronSchedule::parse(pattern).expect("valid pattern");
    SkedgyTask::new(id.to_string(), TaskKind::Cron(schedule), Arc::new(Probe(n)))
}

fn ids(batch: &[(i64, SkedgyTask<Probe>)]) -> Vec<(i64, String)> {
    batch.iter().map(|(t, task)| (*t, task.id.clone())).collect()
}

#[test]
fn lib_test_run_at() {
    let mut s = SkedgyScheduler::starting_at(config(100), T0);
    s.handle_command(SkedgyCommand::Add(at("test_task", T0 + 200, 1)), T0);
    assert_eq!(s.next_schedule_time_at(T0), Some(T0 + 200));
    let batch = s.next_batch(T0 + 200);
    assert_eq!(ids(&batch), vec![(T0 + 200, "test_task".to_string())]);
    assert_eq!(*batch[0].1.task, Probe(1));
    assert_eq!(s.next_schedule_time_at(T0 + 200), None);
}

#[test]
fn lib_test_run_in() {
    let mut s = SkedgyScheduler::starting_at(config(100), T0);
    s.handle_command(SkedgyCommand::Add(after("test_task", 200, 1)), T0 + 5);
    assert_eq!(s.next_schedule_time_at(T0 + 5), Some(T0 + 205));
    let batch = s.next_batch(T0 + 205);
    assert_eq!(ids(&batch), vec![(T0 + 205, "test_task".to_string())]);
}

#[test]
fn lib_test_cron() {
    let mut s = SkedgyScheduler::starting_at(config(100), T0 + 300);
    s.handle_command(SkedgyCommand::Add(cron("test_task", EVERY_SECOND, 1)), T0 + 300);
    // seen at T0 + 300 the next run is the next whole second
    assert_eq!(s.next_schedule_time_at(T0 + 300), Some(T0 + 1000));
    let batch = s.next_batch(T0 + 1000);
    assert_eq!(ids(&batch), vec![(T0 + 1000, "test_task".to_string())]);
    assert_eq!(s.last_cron_run(), T0 + 1000);
}

#[test]
fn lib_test_multiple_schedules() {
    let mut s = SkedgyScheduler::starting_at(config(100), T0);
    s.handle_command(SkedgyCommand::Add(at("task1", T0 + 200, 1)), T0);
    s.handle_command(SkedgyCommand::Add(after("task2", 400, 2)), T0);
    let first = s.next_schedule_time_at(T0).unwrap();
    assert_eq!(first, T0 + 200);
    assert_eq!(ids(&s.next_batch(first)), vec![(T0 + 200, "task1".to_string())]);
    let second = s.next_schedule_time_at(first).unwrap();
    assert_eq!(second, T0 + 400);
    assert_eq!(ids(&s.next_batch(second)), vec![(T0 + 400, "task2".to_string())]);
}

#[test]
fn lib_test_remove_task() {
    let mut s = SkedgyScheduler::starting_at(config(100), T0);
    s.handle_command(SkedgyCommand::Add(at("remove_task", T0 + 200, 1)), T0);
    s.handle_command(SkedgyCommand::Remove("remove_task".to_string()), T0 + 1);
    // the due time stays behind, but nothing runs at it
    assert_eq!(s.next_schedule_time_at(T0 + 1), Some(T0 + 200));
    assert!(s.next_batch(T0 + 200).is_empty());
    assert_eq!(s.next_schedule_time_at(T0 + 200), None);
}

#[test]
fn lib_test_remove_cron_task() {
    let mut s = SkedgyScheduler::starting_at(config(10), T0 + 100);
    s.handle_command(SkedgyCommand::Add(cron("cron_task", EVERY_SECOND, 1)), T0 + 100);
    let runs = s.next_batch(T0 + 1000);
    assert_eq!(runs.len(), 1);
    s.handle_command(SkedgyCommand::Remove("cron_task".to_string()), T0 + 1100);
    assert!(s.crons().is_empty());
    assert_eq!(s.next_schedule_time_at(T0 + 1100), None);
    assert!(s.next_batch(T0 + 2000).is_empty());
}

#[test]
fn batch_is_ordered_by_time_and_stable() {
    let mut s = SkedgyScheduler::starting_at(config(1000), T0);
    s.handle_command(SkedgyCommand::Add(at("b", T0 + 500, 1)), T0);
    s.handle_command(SkedgyCommand::Add(at("a", T0 + 100, 2)), T0);
    s.handle_command(SkedgyCommand::Add(at("c", T0 + 500, 3)), T0);
    s.handle_command(SkedgyCommand::Add(at("late", T0 + 5000, 4)), T0);
    let batch = s.next_batch(T0 + 100);
    assert_eq!(
        ids(&batch),
        vec![
            (T0 + 100, "a".to_string()),
            (T0 + 500, "b".to_string()),
            (T0 + 500, "c".to_string())
        ]
    );
    assert_eq!(s.next_schedule_time_at(T0 + 100), Some(T0 + 5000));
}

#[test]
fn cron_runs_merge_into_the_batch_by_time() {
    let mut s = SkedgyScheduler::starting_at(config(2500), T0 + 10);
    s.handle_command(SkedgyCommand::Add(cron("tick", EVERY_SECOND, 1)), T0 + 10);
    s.handle_command(SkedgyCommand::Add(at("once", T0 + 1500, 2)), T0 + 10);
    let batch = s.next_batch(T0 + 1000);
    assert_eq!(
        ids(&batch),
        vec![
            (T0 + 1000, "tick".to_string()),
            (T0 + 1500, "once".to_string()),
            (T0 + 2000, "tick".to_string()),
            (T0 + 3000, "tick".to_string())
        ]
    );
    assert_eq!(s.last_cron_run(), T0 + 1000);
}

#[test]
fn waking_again_in_the_same_window_skips_crons() {
    let mut s = SkedgyScheduler::starting_at(config(100), T0 + 10);
    s.handle_command(SkedgyCommand::Add(cron("tick", EVERY_SECOND, 1)), T0 + 10);
    assert_eq!(s.next_batch(T0 + 1000).len(), 1);
    assert!(s.next_batch(T0 + 1000).is_empty());
}

#[test]
fn new_scheduler_starts_at_a_whole_second() {
    let s: SkedgyScheduler<Probe> = SkedgyScheduler::starting_at(config(10), T0 + 1234);
    assert_eq!(s.last_cron_run(), T0 + 1000);
    let before_epoch: SkedgyScheduler<Probe> = SkedgyScheduler::starting_at(config(10), -1500);
    assert_eq!(before_epoch.last_cron_run(), -2000);
    let live: SkedgyScheduler<Probe> = SkedgyScheduler::new(SkedgyConfig::default());
    assert_eq!(live.last_cron_run() % 1000, 0);
    assert_eq!(live.config().look_ahead_duration, 10);
}

#[test]
fn cron_runs_are_only_counted_after_the_last_run() {
    let mut s = SkedgyScheduler::starting_at(config(10), T0 + 10);
    s.handle_command(SkedgyCommand::Add(cron("tick", EVERY_SECOND, 1)), T0 + 10);
    let _ = s.next_batch(T0 + 1000);
    // seen just before the last run, the cron's next run is the last run itself,
    // which no longer counts
    assert_eq!(s.next_schedule_time_at(T0 + 999), None);
    assert_eq!(s.next_schedule_time_at(T0 + 1000), Some(T0 + 2000));
}

#[test]
fn update_replaces_a_cron_task() {
    let mut s = SkedgyScheduler::starting_at(config(10), T0);
    s.handle_command(SkedgyCommand::Add(cron("job", EVERY_SECOND, 1)), T0);
    s.handle_command(SkedgyCommand::Add(cron("other", "0 0 * * * * *", 2)), T0);
    s.handle_command(SkedgyCommand::Update(cron("job", "0 * * * * * *", 3)), T0);
    let crons = s.crons();
    assert_eq!(crons.len(), 2);
    assert_eq!(crons[0].1.id, "other");
    assert_eq!(crons[1].1.id, "job");
    assert_eq!(crons[1].0.source(), "0 * * * * * *");
    assert_eq!(*crons[1].1.task, Probe(3));
}

#[test]
fn update_replaces_a_one_time_task() {
    let mut s = SkedgyScheduler::starting_at(config(10), T0);
    s.handle_command(SkedgyCommand::Add(at("job", T0 + 100, 1)), T0);
    s.handle_command(SkedgyCommand::Add(cron("job", EVERY_SECOND, 3)), T0);
    s.handle_command(SkedgyCommand::Add(at("other", T0 + 150, 4)), T0);
    s.handle_command(SkedgyCommand::Update(at("job", T0 + 200, 2)), T0);
    let entries = s.schedules().entry_list();
    assert_eq!(ids(&entries), vec![(T0 + 150, "other".to_string()), (T0 + 200, "job".to_string())]);
    assert_eq!(*entries[1].1.task, Probe(2));
    assert!(s.crons().is_empty());
    // nothing runs at the old time
    assert_eq!(ids(&s.next_batch(T0 + 100)), vec![]);
}

#[test]
fn handle_commands_runs_them_in_order() {
    let mut s = SkedgyScheduler::starting_at(config(10), T0);
    s.handle_commands(
        vec![
            SkedgyCommand::Add(at("a", T0 + 100, 1)),
            SkedgyCommand::Add(after("b", 50, 2)),
            SkedgyCommand::Remove("a".to_string()),
        ],
        T0 + 10,
    );
    assert_eq!(ids(&s.schedules().entry_list()), vec![(T0 + 60, "b".to_string())]);
    assert_eq!(s.schedules().time_list(), &vec![T0 + 60, T0 + 100]);
}

#[test]
fn plan_tick_hibernates_or_sleeps() {
    let mut s = SkedgyScheduler::starting_at(config(10), T0);
    assert_eq!(s.plan_tick(T0), TickPlan::Hibernate);
    s.handle_command(SkedgyCommand::Add(at("a", T0 + 300, 1)), T0);
    assert_eq!(s.plan_tick(T0), TickPlan::SleepUntil { wake_at: T0 + 300, sleep_millis: 300 });
    assert_eq!(s.plan_tick(T0 + 900), TickPlan::SleepUntil { wake_at: T0 + 300, sleep_millis: 0 });
}

#[test]
fn dispatch_list_gives_each_handler_its_metadata() {
    let mut s = SkedgyScheduler::starting_at(config(1000), T0);
    s.handle_command(SkedgyCommand::Add(at("x", T0 + 1, 7)), T0);
    s.handle_command(SkedgyCommand::Add(at("y", T0 + 2, 8)), T0);
    let batch = s.next_batch(T0);
    let out = dispatch_list(&batch);
    assert_eq!(out.len(), 2);
    assert_eq!(out[0].0, Metadata { id: "x".to_string(), target_time: T0 + 1 });
    assert_eq!(*out[0].1, Probe(7));
    assert_eq!(out[1].0, Metadata { id: "y".to_string(), target_time: T0 + 2 });
    assert!(Arc::ptr_eq(&out[1].1, &batch[1].1.task));
}

#[test]
fn add_then_remove_restores_the_tasks() {
    let mut s = SkedgyScheduler::starting_at(config(10), T0);
    s.handle_command(SkedgyCommand::Add(at("keep", T0 + 50, 1)), T0);
    s.handle_command(SkedgyCommand::Add(cron("tick", EVERY_SECOND, 2)), T0);
    let before = ids(&s.schedules().entry_list());
    s.handle_command(SkedgyCommand::Add(at("gone", T0 + 20, 3)), T0);
    s.handle_command(SkedgyCommand::Remove("gone".to_string()), T0);
    assert_eq!(ids(&s.schedules().entry_list()), before);
    assert_eq!(s.crons().len(), 1);
    s.handle_command(SkedgyCommand::Remove("tick".to_string()), T0);
    s.handle_command(SkedgyCommand::Remove("tick".to_string()), T0);
    assert!(s.crons().is_empty());
}

#[test]
fn snapshot_round_trip() {
    let mut s = SkedgyScheduler::starting_at(config(10), T0);
    s.handle_command(SkedgyCommand::Add(at("a", T0 + 300, 1)), T0);
    s.handle_command(SkedgyCommand::Add(at("b", T0 + 100, 2)), T0);
    s.handle_command(SkedgyCommand::Add(at("c", T0 + 300, 3)), T0);
    s.handle_command(SkedgyCommand::Add(cron("tick", EVERY_SECOND, 4)), T0);
    let before = ids(&s.schedules().entry_list());
    let state = s.state();
    let names: Vec<String> = state.tasks().iter().map(|t| t.id.clone()).collect();
    assert_eq!(names, vec!["tick", "b", "a", "c"]);
    let mut other = SkedgyScheduler::starting_at(config(10), T0);
    other.load(state);
    assert_eq!(ids(&other.schedules().entry_list()), before);
    assert_eq!(other.schedules().time_list(), &vec![T0 + 100, T0 + 300]);
    assert_eq!(other.crons().len(), 1);
    assert_eq!(other.crons()[0].0.source(), EVERY_SECOND);
}

#[test]
fn snapshot_drops_tasks_scheduled_by_delay() {
    let mut s = SkedgyScheduler::starting_at(config(10), T0);
    s.handle_command(SkedgyCommand::Add(after("later", 100, 1)), T0);
    let state = s.state();
    assert_eq!(state.tasks().len(), 1);
    let mut other = SkedgyScheduler::starting_at(config(10), T0);
    other.load(state);
    assert!(other.schedules().entry_list().is_empty());
}

#[test]
fn one_time_tasks_are_handed_out_once_over_a_run() {
    let mut s = SkedgyScheduler::starting_at(config(300), T0);
    s.handle_command(SkedgyCommand::Add(at("a", T0 + 100, 1)), T0);
    s.handle_command(SkedgyCommand::Add(at("b", T0 + 250, 2)), T0);
    s.handle_command(SkedgyCommand::Add(at("c", T0 + 500, 3)), T0);
    // overlapping windows: [T0, T0 + 300), [T0 + 200, T0 + 500), [T0 + 400, T0 + 700)
    let first = ids(&s.next_batch(T0));
    let second = ids(&s.next_batch(T0 + 200));
    let third = ids(&s.next_batch(T0 + 400));
    assert_eq!(first, vec![(T0 + 100, "a".to_string()), (T0 + 250, "b".to_string())]);
    assert_eq!(second, vec![]);
    assert_eq!(third, vec![(T0 + 500, "c".to_string())]);
}

#[test]
fn a_task_comes_back_only_when_scheduled_again() {
    let mut s = SkedgyScheduler::starting_at(config(100), T0);
    s.handle_command(SkedgyCommand::Add(at("a", T0 + 100, 1)), T0);
    assert_eq!(ids(&s.next_batch(T0 + 100)), vec![(T0 + 100, "a".to_string())]);
    s.handle_command(SkedgyCommand::Add(at("b", T0 + 300, 2)), T0 + 150);
    assert_eq!(ids(&s.next_batch(T0 + 100)), vec![]);
    assert_eq!(ids(&s.next_batch(T0 + 300)), vec![(T0 + 300, "b".to_string())]);
    s.handle_command(SkedgyCommand::Add(at("a", T0 + 100, 1)), T0 + 350);
    assert_eq!(ids(&s.next_batch(T0 + 400)), vec![(T0 + 100, "a".to_string())]);
}

#[test]
fn a_batch_near_the_last_time_needs_no_cron_search() {
    let last = skedgy::MAX_MILLIS;
    let mut s = SkedgyScheduler::starting_at(config(0), last - 1);
    s.handle_command(SkedgyCommand::Add(at("late", last - 1, 1)), last - 1);
    assert!(!s.searches_crons(last));
    assert_eq!(s.next_schedule_time_at(last), Some(last - 1));
    assert_eq!(ids(&s.next_batch(last)), vec![(last - 1, "late".to_string())]);
}
