use vstd::prelude::*;
use std::sync::Arc;

use crate::cron_schedule::{cron_pattern_valid, CronSchedule};
use crate::error::SkedgyError;
use crate::task::{SkedgyTask, TaskKind};
use crate::time::{now_millis, MAX_MILLIS, MIN_MILLIS};

verus! {

/// Holds of a character of the URL-safe alphabet of generated identifiers.
pub open spec fn is_id_char(c: char) -> bool {
    ('a' <= c <= 'z') || ('A' <= c <= 'Z') || ('0' <= c <= '9') || c == '_' || c == '-'
}

/// A generated identifier: ten characters of the URL-safe alphabet.
pub open spec fn is_generated_id(s: Seq<char>) -> bool {
    s.len() == 10 && forall|i: int| 0 <= i < s.len() ==> is_id_char(#[trigger] s[i])
}

/// `nanoid::format` with the default random source, the URL-safe alphabet
/// and ten characters (what `nanoid!(10)` expands to). The identifier is
/// random: only its length and alphabet are stated. The random source
/// panics only where the operating system provides no randomness, which no
/// argument can rule out.
#[verifier::external_body]
fn generate_id() -> (r: String)
    ensures
        is_generated_id(r@),
{
    nanoid::format(nanoid::rngs::default, &nanoid::alphabet::SAFE, 10)
}

/// The time `d` milliseconds after `now`.
pub open spec fn delay_end(now: i64, d: u64) -> i64 {
    (now + d) as i64
}

/// A delay ends exactly its length after the reading it counts from.
pub proof fn lemma_delay_end(now: i64, d: u64)
    requires
        MIN_MILLIS <= now <= MAX_MILLIS,
        d <= i64::MAX - MAX_MILLIS,
    ensures
        delay_end(now, d) - now == d,
        delay_end(now, d) > now || d == 0,
{
}

/// When a schedule under construction runs.
pub enum ScheduleType {
    /// After a delay, in milliseconds.
    Duration(u64),
    /// On a cron pattern, not yet checked.
    Cron(String),
    /// At a point in time, in milliseconds since the Unix epoch.
    Timestamp(i64),
}

/// Collects the parts of a task; `build` checks them.
pub struct ScheduleBuilder<H: ?Sized> {
    pub id: Option<String>,
    pub schedule_type: Option<ScheduleType>,
    pub task: Option<Arc<H>>,
}

impl<H: ?Sized> ScheduleBuilder<H> {
    /// A builder with nothing set.
    pub fn new() -> (r: Self)
        ensures
            r.id is None,
            r.schedule_type is None,
            r.task is None,
    {
        ScheduleBuilder { id: None, schedule_type: None, task: None }
    }

    /// Sets the identifier.
    pub fn id(self, id: &str) -> (r: Self)
        ensures
            r.id matches Some(i) && i@ == id@,
            r.schedule_type == self.schedule_type,
            r.task == self.task,
    {
        ScheduleBuilder { id: Some(id.to_owned()), ..self }
    }

    /// Runs the task after a delay, in milliseconds.
    pub fn duration(self, duration: u64) -> (r: Self)
        ensures
            r.schedule_type == Some(ScheduleType::Duration(duration)),
            r.id == self.id,
            r.task == self.task,
    {
        ScheduleBuilder { schedule_type: Some(ScheduleType::Duration(duration)), ..self }
    }

    /// Runs the task on a cron pattern, checked when the task is built.
    pub fn cron(self, cron: &str) -> (r: Self)
        ensures
            r.schedule_type matches Some(ScheduleType::Cron(c)) && c@ == cron@,
            r.id == self.id,
            r.task == self.task,
    {
        ScheduleBuilder { schedule_type: Some(ScheduleType::Cron(cron.to_owned())), ..self }
    }

    /// Runs the task at a point in time.
    pub fn timestamp(self, timestamp: i64) -> (r: Self)
        ensures
            r.schedule_type == Some(ScheduleType::Timestamp(timestamp)),
            r.id == self.id,
            r.task == self.task,
    {
        ScheduleBuilder { schedule_type: Some(ScheduleType::Timestamp(timestamp)), ..self }
    }

    /// Sets the handler.
    pub fn task(self, task: Arc<H>) -> (r: Self)
        ensures
            r.task == Some(task),
            r.id == self.id,
            r.schedule_type == self.schedule_type,
    {
        ScheduleBuilder { task: Some(task), ..self }
    }

    /// The task, or why it cannot be built: `NoSchedule` without a
    /// schedule, then `InvalidCron` for a cron pattern the cron crate
    /// refuses, then `NoTask` without a handler. Without an identifier the
    /// task gets a generated one.
    pub fn build(self) -> (r: Result<SkedgyTask<H>, SkedgyError>)
        ensures
            self.schedule_type is None ==> r == Err::<SkedgyTask<H>, SkedgyError>(SkedgyError::NoSchedule),
            (self.schedule_type matches Some(ScheduleType::Cron(c)) && !cron_pattern_valid(c@))
                ==> r == Err::<SkedgyTask<H>, SkedgyError>(SkedgyError::InvalidCron),
            (self.schedule_type is Some && !(self.schedule_type matches Some(ScheduleType::Cron(c)) && !cron_pattern_valid(c@))
                && self.task is None) ==> r == Err::<SkedgyTask<H>, SkedgyError>(SkedgyError::NoTask),
            (self.schedule_type is Some && !(self.schedule_type matches Some(ScheduleType::Cron(c)) && !cron_pattern_valid(c@))
                && self.task is Some) ==> r is Ok,
            r matches Ok(t) ==> {
                &&& self.task == Some(t.task)
                &&& (self.id matches Some(i) ==> t.id == i)
                &&& (self.id is None ==> is_generated_id(t.id@))
                &&& match self.schedule_type {
                    Some(ScheduleType::Duration(d)) => t.kind == TaskKind::In(d),
                    Some(ScheduleType::Timestamp(ts)) => t.kind == TaskKind::At(ts),
                    Some(ScheduleType::Cron(c)) => t.kind matches TaskKind::Cron(s) && s@ == c@,
                    None => false,
                }
            },
    {
        let id = match self.id {
            Some(id) => id,
            None => generate_id(),
        };
        let kind = match self.schedule_type {
            None => {
                return Err(SkedgyError::NoSchedule);
            },
            Some(ScheduleType::Duration(d)) => TaskKind::In(d),
            Some(ScheduleType::Cron(c)) => match CronSchedule::parse(c.as_str()) {
                Ok(s) => TaskKind::Cron(s),
                Err(e) => {
                    return Err(e);
                },
            },
            Some(ScheduleType::Timestamp(t)) => TaskKind::At(t),
        };
        match self.task {
            Some(task) => Ok(SkedgyTask { id, kind, task }),
            None => Err(SkedgyError::NoTask),
        }
    }
}

/// Builds a task step by step, each step changing the builder in place.
pub struct SkedgyTaskBuilder<H: ?Sized> {
    pub kind: Option<TaskKind>,
    pub handler: Option<Arc<H>>,
    pub id: Option<String>,
}

impl<H: ?Sized> SkedgyTaskBuilder<H> {
    /// A builder for a task with the given identifier.
    pub fn named(id: &str) -> (r: Self)
        ensures
            r.kind is None,
            r.handler is None,
            r.id matches Some(i) && i@ == id@,
    {
        SkedgyTaskBuilder { kind: None, handler: None, id: Some(id.to_owned()) }
    }

    /// A builder for a task with a generated identifier.
    pub fn new() -> (r: Self)
        ensures
            r.kind is None,
            r.handler is None,
            r.id matches Some(i) && is_generated_id(i@),
    {
        SkedgyTaskBuilder { kind: None, handler: None, id: Some(generate_id()) }
    }

    /// Runs the task at a point in time.
    pub fn at(&mut self, datetime: i64) -> (r: &mut Self)
        ensures
            r.kind == Some(TaskKind::At(datetime)),
            r.handler == old(self).handler,
            r.id == old(self).id,
            *final(self) == *final(r),
    {
        self.kind = Some(TaskKind::At(datetime));
        self
    }

    /// Runs the task after a delay (milliseconds) counted from now: the
    /// task is due at the current time plus the delay.
    pub fn run_in(&mut self, duration: u64) -> (r: &mut Self)
        requires
            duration <= i64::MAX - MAX_MILLIS,
        ensures
            exists|now: i64| MIN_MILLIS <= now <= MAX_MILLIS && r.kind == Some(TaskKind::At(#[trigger] delay_end(now, duration))),
            exists|now: i64| MIN_MILLIS <= now <= MAX_MILLIS && now + duration <= i64::MAX
                && r.kind == Some(TaskKind::At(#[trigger] (now + duration) as i64)),
            r.handler == old(self).handler,
            r.id == old(self).id,
            *final(self) == *final(r),
    {
        let now = now_millis();
        let datetime = now + duration as i64;
        self.kind = Some(TaskKind::At(datetime));
        proof {
            assert(self.kind == Some(TaskKind::At(delay_end(now, duration))));
        }
        self
    }

    /// Runs the task on a cron pattern; `InvalidCron`, with the builder
    /// unchanged, where the cron crate refuses the pattern.
    pub fn cron(&mut self, pattern: &str) -> (r: Result<&mut Self, SkedgyError>)
        ensures
            r is Ok <==> cron_pattern_valid(pattern@),
            r is Err ==> r == Err::<&mut Self, SkedgyError>(SkedgyError::InvalidCron) && *final(self) == *old(self),
            r matches Ok(b) ==> {
                &&& b.kind matches Some(TaskKind::Cron(s)) && s@ == pattern@
                &&& b.handler == old(self).handler
                &&& b.id == old(self).id
                &&& *final(self) == *final(b)
            },
    {
        match CronSchedule::parse(pattern) {
            Ok(schedule) => {
                self.kind = Some(TaskKind::Cron(schedule));
                Ok(self)
            },
            Err(e) => Err(e),
        }
    }

    /// Sets the handler.
    pub fn handler(&mut self, handler: Arc<H>) -> (r: &mut Self)
        ensures
            r.handler == Some(handler),
            r.kind == old(self).kind,
            r.id == old(self).id,
            *final(self) == *final(r),
    {
        self.handler = Some(handler);
        self
    }

    /// The task: `InvalidCron` when no schedule was set (the builder is then
    /// unchanged); otherwise the handler is taken out of the builder, and a
    /// builder without an identifier gives the task a generated one.
    pub fn build(&mut self) -> (r: Result<SkedgyTask<H>, SkedgyError>)
        requires
            old(self).kind is Some ==> old(self).handler is Some,
        ensures
            old(self).kind is None ==> r == Err::<SkedgyTask<H>, SkedgyError>(SkedgyError::InvalidCron) && *final(self) == *old(self),
            old(self).kind is Some ==> r is Ok,
            r matches Ok(t) ==> {
                &&& Some(t.kind) == old(self).kind
                &&& Some(t.task) == old(self).handler
                &&& (old(self).id matches Some(i) ==> t.id == i)
                &&& (old(self).id is None ==> is_generated_id(t.id@))
                &&& final(self).handler is None
                &&& final(self).kind == old(self).kind
                &&& final(self).id == old(self).id
            },
    {
        let kind = match &self.kind {
            Some(k) => k.duplicate(),
            None => {
                return Err(SkedgyError::InvalidCron);
            },
        };
        let handler = match self.handler.take() {
            Some(h) => h,
            None => {
                return Err(SkedgyError::NoTask);
            },
        };
        let id = match &self.id {
            Some(i) => i.clone(),
            None => generate_id(),
        };
        Ok(SkedgyTask { id, kind, task: handler })
    }
}

} // verus!
