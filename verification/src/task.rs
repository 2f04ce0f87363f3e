use vstd::prelude::*;
use std::sync::Arc;

use crate::builder::{is_generated_id, SkedgyTaskBuilder};
use crate::cron_schedule::CronSchedule;
use crate::dep::arc_clone;

verus! {

/// When a task runs.
pub enum TaskKind {
    /// At a point in time (milliseconds since the Unix epoch).
    At(i64),
    /// After a delay (milliseconds) counted from when the scheduler
    /// receives the task.
    In(u64),
    /// At every time a cron pattern matches.
    Cron(CronSchedule),
}

impl TaskKind {
    /// An equal copy.
    pub fn duplicate(&self) -> (r: TaskKind)
        ensures
            r == *self,
    {
        match self {
            TaskKind::At(t) => TaskKind::At(*t),
            TaskKind::In(d) => TaskKind::In(*d),
            TaskKind::Cron(s) => TaskKind::Cron(s.duplicate()),
        }
    }
}

/// A task: its identifier, when it runs, and the handler that runs.
/// The handler is shared, so copies of a task run the same handler.
pub struct SkedgyTask<H: ?Sized> {
    pub id: String,
    pub kind: TaskKind,
    pub task: Arc<H>,
}

impl<H: ?Sized> SkedgyTask<H> {
    /// A task from its parts.
    pub fn new(id: String, kind: TaskKind, task: Arc<H>) -> (r: Self)
        ensures
            r.id == id,
            r.kind == kind,
            r.task == task,
    {
        SkedgyTask { id, kind, task }
    }

    /// A builder for a task with the given identifier.
    pub fn named(id: &str) -> (r: SkedgyTaskBuilder<H>)
        ensures
            r.kind is None,
            r.handler is None,
            r.id matches Some(i) && i@ == id@,
    {
        SkedgyTaskBuilder::named(id)
    }

    /// A builder for a task with a generated identifier.
    pub fn anonymous() -> (r: SkedgyTaskBuilder<H>)
        ensures
            r.kind is None,
            r.handler is None,
            r.id matches Some(i) && is_generated_id(i@),
    {
        SkedgyTaskBuilder::new()
    }

    /// An equal copy that shares the handler.
    pub fn duplicate(&self) -> (r: Self)
        ensures
            r == *self,
    {
        SkedgyTask { id: self.id.clone(), kind: self.kind.duplicate(), task: arc_clone(&self.task) }
    }
}

/// What a handler learns when it runs: the task's identifier and the time
/// (milliseconds since the Unix epoch) it was due.
#[derive(Debug, PartialEq, Eq)]
pub struct Metadata {
    pub id: String,
    pub target_time: i64,
}

} // verus!
