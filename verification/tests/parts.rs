use skedgy::{
    get_struct_name_ident, is_dependency_type, merge_by_time, CronSchedule, Dep, FnArgShape,
    GenericArgShape, IntoDateTime, IntoDuration, PathSegmentShape, ScheduleBuilder, ScheduleType,
    Schedules, SkedgyConfig, SkedgyError, SkedgyTask, SkedgyTaskBuilder, TaskKind, TypeShape,
};
use std::any::{Any, TypeId};
use std::sync::Arc;

const T0: i64 = 1_700_000_000_000;

fn task(id: &str, n: u32) -> SkedgyTask<u32> {
    SkedgyTask::new(id.to_string(), TaskKind::At(0), Arc::new(n))
}

#[test]
fn error_messages() {
    assert_eq!(SkedgyError::SendError.message(), "Error sending message to scheduler");
    assert_eq!(SkedgyError::RecvError.message(), "Error receiving message from scheduler");
    assert_eq!(SkedgyError::InvalidCron.message(), "Invalid cron expression");
    assert_eq!(SkedgyError::TickError.message(), "Error during scheduler tick");
    assert_eq!(SkedgyError::NoSchedule.message(), "No schedule was set for the task");
    assert_eq!(SkedgyError::NoTask.message(), "No task was set for the schedule");
}

#[test]
fn config_default_look_ahead() {
    assert_eq!(SkedgyConfig::default().look_ahead_duration, 10);
}

#[test]
fn dep_shares_its_value() {
    let d = Dep::new(10i32);
    assert_eq!(*d.inner(), 10);
    let e = d.clone();
    assert_eq!(*e.inner(), 10);
    assert!(std::ptr::eq(d.inner(), e.inner()));
}

#[test]
fn conversions_are_identities() {
    assert_eq!(250u64.into_duration(), 250);
    assert_eq!(T0.into_datetime(), T0);
}

#[test]
fn cron_parse_and_runs() {
    assert_eq!(CronSchedule::parse("not a cron").err(), Some(SkedgyError::InvalidCron));
    let every_second = CronSchedule::parse("0/1 * * * * * *").unwrap();
    assert_eq!(every_second.source(), "0/1 * * * * * *");
    assert_eq!(every_second.next_after(T0 + 500), Some(T0 + 1000));
    assert_eq!(every_second.next_after(T0), Some(T0 + 1000));
    assert_eq!(every_second.runs_between(T0, T0 + 3000), vec![T0 + 1000, T0 + 2000]);
    assert_eq!(every_second.runs_between(T0 - 1, T0 + 1), vec![T0]);
    assert!(every_second.runs_between(T0 + 10, T0 + 10).is_empty());
    let copy = every_second.duplicate();
    assert_eq!(copy.source(), every_second.source());
    // the cron crate only knows years up to 2100
    let yearly = CronSchedule::parse("0 0 0 1 1 * *").unwrap();
    assert_eq!(yearly.next_after(4_200_000_000_000), None);
}

#[test]
fn merge_by_time_is_a_stable_sort() {
    let sorted = vec![(1, "a"), (3, "b"), (3, "c"), (7, "d")];
    let extra = vec![(3, "e"), (0, "f"), (9, "g"), (3, "h")];
    let merged = merge_by_time(sorted, extra);
    assert_eq!(
        merged,
        vec![(0, "f"), (1, "a"), (3, "b"), (3, "c"), (3, "e"), (3, "h"), (7, "d"), (9, "g")]
    );
}

#[test]
fn schedules_table() {
    let mut table: Schedules<u32> = Schedules::new();
    assert_eq!(table.first_time(), None);
    table.insert(30, task("x", 1));
    table.insert(10, task("y", 2));
    table.insert(30, task("z", 3));
    assert_eq!(table.time_list(), &vec![10, 30]);
    assert_eq!(table.first_time(), Some(10));
    let names: Vec<String> = table.entry_list().iter().map(|e| e.1.id.clone()).collect();
    assert_eq!(names, vec!["y", "x", "z"]);
    table.remove_named(&"y".to_string());
    assert_eq!(table.time_list(), &vec![10, 30]);
    let taken = table.take_before(30);
    assert!(taken.is_empty());
    assert_eq!(table.time_list(), &vec![30]);
    let taken = table.take_before(31);
    assert_eq!(taken.len(), 2);
    assert_eq!(*taken[1].1.task, 3);
    assert!(table.time_list().is_empty());
}

#[test]
fn schedule_builder_errors() {
    let no_schedule: ScheduleBuilder<u32> = ScheduleBuilder::new().id("a").task(Arc::new(1));
    assert_eq!(no_schedule.build().err(), Some(SkedgyError::NoSchedule));
    let bad_cron: ScheduleBuilder<u32> = ScheduleBuilder::new().cron("every day");
    assert_eq!(bad_cron.build().err(), Some(SkedgyError::InvalidCron));
    let no_task: ScheduleBuilder<u32> = ScheduleBuilder::new().duration(5);
    assert_eq!(no_task.build().err(), Some(SkedgyError::NoTask));
}

#[test]
fn schedule_builder_builds() {
    let built = ScheduleBuilder::new().id("job").timestamp(T0).task(Arc::new(4u32)).build().unwrap();
    assert_eq!(built.id, "job");
    assert!(matches!(built.kind, TaskKind::At(t) if t == T0));
    assert_eq!(*built.task, 4);
    let delayed = ScheduleBuilder::new().duration(250).task(Arc::new(5u32)).build().unwrap();
    assert!(matches!(delayed.kind, TaskKind::In(250)));
    assert_eq!(delayed.id.chars().count(), 10);
    assert!(delayed.id.chars().all(|c| c.is_ascii_alphanumeric() || c == '_' || c == '-'));
    let cron = ScheduleBuilder::new().cron("0/5 * * * * * *").task(Arc::new(6u32)).build().unwrap();
    match &cron.kind {
        TaskKind::Cron(s) => assert_eq!(s.source(), "0/5 * * * * * *"),
        _ => panic!("expected a cron task"),
    }
    let b: ScheduleBuilder<u32> = ScheduleBuilder::new().duration(1).timestamp(9);
    assert!(matches!(b.schedule_type, Some(ScheduleType::Timestamp(9))));
}

#[test]
fn task_builder_steps() {
    let mut b: SkedgyTaskBuilder<u32> = SkedgyTaskBuilder::named("job");
    assert_eq!(b.build().err(), Some(SkedgyError::InvalidCron));
    assert!(b.cron("nope").is_err());
    assert!(b.kind.is_none());
    b.at(T0).handler(Arc::new(3));
    let t = b.build().unwrap();
    assert_eq!(t.id, "job");
    assert!(matches!(t.kind, TaskKind::At(x) if x == T0));
    assert!(b.handler.is_none());
    let mut c: SkedgyTaskBuilder<u32> = SkedgyTaskBuilder::new();
    assert_eq!(c.id.as_ref().unwrap().chars().count(), 10);
    c.cron("0/1 * * * * * *").unwrap().handler(Arc::new(1));
    assert!(matches!(c.build().unwrap().kind, TaskKind::Cron(_)));
    let mut d: SkedgyTaskBuilder<u32> = SkedgyTaskBuilder::named("soon");
    let before = skedgy::now_millis();
    d.run_in(5000);
    match d.kind {
        Some(TaskKind::At(x)) => assert!(x >= before + 5000),
        _ => panic!("expected a point in time"),
    }
}

fn dep_type(inner: &str) -> TypeShape<String> {
    TypeShape::Path(vec![
        PathSegmentShape { ident: "skedgy".to_string(), angle_args: None },
        PathSegmentShape {
            ident: "Dep".to_string(),
            angle_args: Some(vec![GenericArgShape::Type(inner.to_string())]),
        },
    ])
}

#[test]
fn task_attribute_helpers() {
    let dep = dep_type("Sender<String>");
    assert!(is_dependency_type(&dep));
    assert_eq!(skedgy::get_dependency_type(&dep), "Sender<String>");
    let plain = TypeShape::Path(vec![PathSegmentShape::<String> { ident: "String".to_string(), angle_args: None }]);
    assert!(!is_dependency_type(&plain));
    assert!(!is_dependency_type(&TypeShape::<String>::Other));
    assert_eq!(get_struct_name_ident("send_delayed_message", &vec![]), "SendDelayedMessage");
    assert_eq!(get_struct_name_ident("send_delayed_message", &vec![Some("Sender".to_string())]), "Sender");
    let flags = skedgy::dependency_flags(&vec![FnArgShape::Typed(plain), FnArgShape::Typed(dep)]);
    assert_eq!(flags, vec![false, true]);
}

#[test]
fn earliest_wakeup_takes_the_earliest_later_candidate() {
    assert_eq!(skedgy::earliest_wakeup(None, &vec![], 0), None);
    assert_eq!(skedgy::earliest_wakeup(Some(50), &vec![Some(70), None, Some(40)], 10), Some(40));
    // candidates at or before `last` do not count
    assert_eq!(skedgy::earliest_wakeup(Some(50), &vec![Some(10), Some(5)], 10), Some(50));
    assert_eq!(skedgy::earliest_wakeup(None, &vec![Some(30), Some(20)], 0), Some(20));
}

#[test]
fn dependency_store_keeps_one_value_per_type() {
    let mut store: skedgy::DependencyStore<Box<dyn Any + Send + Sync>> = skedgy::DependencyStore::new();
    assert!(store.get::<i32>().is_none());
    store.insert::<i32>(Box::new(Dep::new(10i32)));
    store.insert::<String>(Box::new(Dep::new("db".to_string())));
    store.insert::<i32>(Box::new(Dep::new(11i32)));
    let dep = store.get::<i32>().and_then(|b| b.downcast_ref::<Dep<i32>>()).unwrap();
    assert_eq!(*dep.inner(), 11);
    let name = store.get::<String>().and_then(|b| b.downcast_ref::<Dep<String>>()).unwrap();
    assert_eq!(name.inner(), "db");
    assert!(store.get::<u8>().is_none());
    assert!(store.get_keyed(&TypeId::of::<String>()).is_some());
    store.insert_keyed(TypeId::of::<u8>(), Box::new(Dep::new(3u8)));
    assert!(store.get::<u8>().is_some());
}
