use vstd::prelude::*;
use std::sync::Arc;

use crate::config::SkedgyConfig;
use crate::cron_schedule::{cron_next_after, cron_runs, CronSchedule};
use crate::dep::arc_clone;
use crate::ordering::{is_time_ordering, merge_by_time};
use crate::state::{at_entries, at_times, cron_entry_of, SkedgyState};
use crate::table::{
    due_before, due_from, insert_at_time, insert_time, not_earlier_than, not_named, Schedules,
};
use crate::task::{Metadata, SkedgyTask, TaskKind};
use crate::time::{now_millis, CRON_AFTER_MAX, MAX_MILLIS, MIN_MILLIS};

verus! {

/// A request to the scheduler.
pub enum SkedgyCommand<H: ?Sized> {
    /// Schedule a task.
    Add(SkedgyTask<H>),
    /// Drop every task with this identifier.
    Remove(String),
    /// Replace every task with the task's identifier by the task.
    Update(SkedgyTask<H>),
}

/// What the scheduler holds, as values.
#[verifier::ext_equal]
pub ghost struct SchedulerState<H: ?Sized> {
    /// The look-ahead window, in milliseconds.
    pub look_ahead: u64,
    /// The due times of one-time tasks, increasing.
    pub times: Seq<i64>,
    /// The one-time tasks with their due times, ordered by time.
    pub entries: Seq<(i64, SkedgyTask<H>)>,
    /// The cron tasks with their schedules, in the order they came.
    pub crons: Seq<(CronSchedule, SkedgyTask<H>)>,
    /// The first cron run of the last batch that held cron runs.
    pub last_cron_run: i64,
}

/// The start of the second that holds `t`.
pub open spec fn whole_second(t: i64) -> int {
    t - t % 1000
}

/// Holds of a cron entry whose task is not named `id`.
pub open spec fn cron_not_named<H: ?Sized>(id: Seq<char>) -> spec_fn((CronSchedule, SkedgyTask<H>)) -> bool {
    |c: (CronSchedule, SkedgyTask<H>)| c.1.id@ != id
}

/// `s` with `task` added among the one-time tasks, due at `t`.
pub open spec fn with_entry<H: ?Sized>(s: SchedulerState<H>, t: i64, task: SkedgyTask<H>) -> SchedulerState<H> {
    SchedulerState { times: insert_time(s.times, t), entries: insert_at_time(s.entries, t, task), ..s }
}

/// `s` with `task` scheduled at `now`: a delay counts from `now`.
pub open spec fn schedule_task<H: ?Sized>(s: SchedulerState<H>, task: SkedgyTask<H>, now: i64) -> SchedulerState<H> {
    match task.kind {
        TaskKind::At(t) => with_entry(s, t, task),
        TaskKind::In(d) => with_entry(s, (now + d) as i64, task),
        TaskKind::Cron(c) => SchedulerState { crons: s.crons.push((c, task)), ..s },
    }
}

/// A delay, added to `now`, stays a representable number.
pub open spec fn command_in_range<H: ?Sized>(c: SkedgyCommand<H>, now: i64) -> bool {
    match c {
        SkedgyCommand::Add(task) => task.kind matches TaskKind::In(d) ==> now + d <= i64::MAX,
        SkedgyCommand::Update(task) => task.kind matches TaskKind::In(d) ==> now + d <= i64::MAX,
        SkedgyCommand::Remove(_) => true,
    }
}

/// `s` without the tasks named `id`, one-time or cron; the due times stay.
pub open spec fn without_named<H: ?Sized>(s: SchedulerState<H>, id: Seq<char>) -> SchedulerState<H> {
    SchedulerState {
        entries: s.entries.filter(not_named::<H>(id)),
        crons: s.crons.filter(cron_not_named::<H>(id)),
        ..s
    }
}

/// The state after the scheduler handles `c` at `now`: an update drops
/// every task of the same identifier before scheduling the new one.
pub open spec fn apply_command<H: ?Sized>(s: SchedulerState<H>, c: SkedgyCommand<H>, now: i64) -> SchedulerState<H> {
    match c {
        SkedgyCommand::Add(task) => schedule_task(s, task, now),
        SkedgyCommand::Remove(id) => without_named(s, id@),
        SkedgyCommand::Update(task) => schedule_task(without_named(s, task.id@), task, now),
    }
}

/// Every command keeps delays representable at `now`.
pub open spec fn commands_in_range<H: ?Sized>(cs: Seq<SkedgyCommand<H>>, now: i64) -> bool {
    forall|i: int| 0 <= i < cs.len() ==> command_in_range(#[trigger] cs[i], now)
}

/// The state after the scheduler handles `cs` in order at `now`.
pub open spec fn apply_commands<H: ?Sized>(s: SchedulerState<H>, cs: Seq<SkedgyCommand<H>>, now: i64) -> SchedulerState<H>
    decreases cs.len(),
{
    if cs.len() == 0 {
        s
    } else {
        apply_command(apply_commands(s, cs.drop_last(), now), cs.last(), now)
    }
}

/// The runs of every cron task strictly after `start` and before `end`,
/// cron task by cron task, each with its task.
pub open spec fn cron_batch<H: ?Sized>(crons: Seq<(CronSchedule, SkedgyTask<H>)>, start: i64, end: i64) -> Seq<(i64, SkedgyTask<H>)>
    decreases crons.len(),
{
    if crons.len() == 0 {
        Seq::empty()
    } else {
        let c = crons.last();
        cron_batch(crons.drop_last(), start, end) + cron_runs(c.0@, start, end).map_values(|r: i64| (r, c.1))
    }
}

/// The end of the window of a batch woken at `from`.
pub open spec fn window_end<H: ?Sized>(s: SchedulerState<H>, from: i64) -> i64 {
    (from + s.look_ahead) as i64
}

/// The cron runs are looked up unless the last cron run lies strictly
/// inside the window.
pub open spec fn looks_up_crons<H: ?Sized>(s: SchedulerState<H>, from: i64) -> bool {
    !(s.last_cron_run > from - 1 && s.last_cron_run < window_end(s, from))
}

/// The cron runs that a batch woken at `from` holds.
pub open spec fn window_crons<H: ?Sized>(s: SchedulerState<H>, from: i64) -> Seq<(i64, SkedgyTask<H>)> {
    if looks_up_crons(s, from) {
        cron_batch(s.crons, (from - 1) as i64, window_end(s, from))
    } else {
        Seq::empty()
    }
}

/// What a batch woken at `from` holds, before it is ordered by time: the
/// one-time tasks due before the window's end, then the cron runs.
pub open spec fn due_batch<H: ?Sized>(s: SchedulerState<H>, from: i64) -> Seq<(i64, SkedgyTask<H>)> {
    s.entries.filter(due_before::<SkedgyTask<H>>(window_end(s, from))) + window_crons(s, from)
}

/// The state after the batch woken at `from` is taken.
pub open spec fn after_batch<H: ?Sized>(s: SchedulerState<H>, from: i64) -> SchedulerState<H> {
    SchedulerState {
        times: s.times.filter(not_earlier_than(window_end(s, from))),
        entries: s.entries.filter(due_from::<SkedgyTask<H>>(window_end(s, from))),
        last_cron_run: if window_crons(s, from).len() > 0 {
            window_crons(s, from)[0].0
        } else {
            s.last_cron_run
        },
        ..s
    }
}

/// The tasks a snapshot of `s` holds: the cron tasks, then the one-time
/// tasks in due order.
pub open spec fn snapshot<H: ?Sized>(s: SchedulerState<H>) -> Seq<SkedgyTask<H>> {
    s.crons.map_values(|c: (CronSchedule, SkedgyTask<H>)| c.1) + s.entries.map_values(|e: (i64, SkedgyTask<H>)| e.1)
}

/// `s` with its tasks replaced by those of a snapshot: the cron tasks by
/// their schedules, the tasks due at a point in time by their due times.
/// Tasks scheduled by a delay are not restored.
pub open spec fn loaded<H: ?Sized>(s: SchedulerState<H>, tasks: Seq<SkedgyTask<H>>) -> SchedulerState<H> {
    SchedulerState {
        times: at_times(tasks),
        entries: at_entries(tasks),
        crons: tasks.filter_map(cron_entry_of::<H>()),
        ..s
    }
}

/// The earlier of two optional times.
pub open spec fn earlier(a: Option<i64>, b: Option<i64>) -> Option<i64> {
    match (a, b) {
        (Some(x), Some(y)) => Some(if x <= y { x } else { y }),
        (Some(x), None) => Some(x),
        (None, Some(y)) => Some(y),
        (None, None) => None,
    }
}

/// The earliest of the candidate times that lie after `last`.
pub open spec fn earliest_candidate(candidates: Seq<Option<i64>>, last: i64) -> Option<i64>
    decreases candidates.len(),
{
    if candidates.len() == 0 {
        None
    } else {
        let rest = earliest_candidate(candidates.drop_last(), last);
        match candidates.last() {
            Some(t) => if t > last { earlier(rest, Some(t)) } else { rest },
            None => rest,
        }
    }
}

/// The earliest candidate after `last` is a lower bound of every
/// candidate time after `last`, and is itself one of them; there is none
/// exactly when no candidate lies after `last`.
pub proof fn lemma_earliest_candidate(candidates: Seq<Option<i64>>, last: i64)
    ensures
        forall|i: int| #![trigger candidates[i]]
            0 <= i < candidates.len() && candidates[i] is Some && candidates[i]->0 > last
            ==> earliest_candidate(candidates, last) is Some
                && earliest_candidate(candidates, last)->0 <= candidates[i]->0,
        earliest_candidate(candidates, last) is Some ==> {
            let w = earliest_candidate(candidates, last)->0;
            w > last && exists|i: int| 0 <= i < candidates.len() && candidates[i] == Some(w)
        },
        earliest_candidate(candidates, last) is None
            ==> forall|i: int| #![trigger candidates[i]]
                0 <= i < candidates.len() ==> !(candidates[i] is Some && candidates[i]->0 > last),
    decreases candidates.len(),
{
    if candidates.len() > 0 {
        let d = candidates.drop_last();
        let n = candidates.len() - 1;
        lemma_earliest_candidate(d, last);
        assert forall|i: int| 0 <= i < d.len() implies d[i] == candidates[i] by {}
        let rest = earliest_candidate(d, last);
        let r = earliest_candidate(candidates, last);
        assert forall|i: int| #![trigger candidates[i]]
            0 <= i < candidates.len() && candidates[i] is Some && candidates[i]->0 > last
            implies r is Some && r->0 <= candidates[i]->0 by {
            if i < n {
                assert(d[i] == candidates[i]);
            }
        }
        if let Some(w) = r {
            if rest == r {
                let k = choose|k: int| 0 <= k < d.len() && d[k] == Some(w);
                assert(candidates[k] == Some(w));
            } else {
                assert(candidates[n] == Some(w));
            }
        }
        if r is None {
            assert forall|i: int| #![trigger candidates[i]] 0 <= i < candidates.len() implies !(candidates[i] is Some && candidates[i]->0 > last) by {
                if i < n {
                    assert(d[i] == candidates[i]);
                }
            }
        }
    }
}

/// The next run after `now` of each cron task, in order.
pub open spec fn next_runs<H: ?Sized>(crons: Seq<(CronSchedule, SkedgyTask<H>)>, now: i64) -> Seq<Option<i64>> {
    crons.map_values(|c: (CronSchedule, SkedgyTask<H>)| cron_next_after(c.0@, now))
}

/// The earliest next run, after `now`, of the cron tasks, counting only
/// runs after `last`.
pub open spec fn earliest_cron<H: ?Sized>(crons: Seq<(CronSchedule, SkedgyTask<H>)>, now: i64, last: i64) -> Option<i64> {
    earliest_candidate(next_runs(crons, now), last)
}

/// The earlier of `first` and the earliest candidate time after `last`.
pub fn earliest_wakeup(first: Option<i64>, candidates: &Vec<Option<i64>>, last: i64) -> (r: Option<i64>)
    ensures
        r == earlier(first, earliest_candidate(candidates@, last)),
        first is Some ==> r is Some && r->0 <= first->0,
        forall|i: int| #![trigger candidates@[i]]
            0 <= i < candidates@.len() && candidates@[i] is Some && candidates@[i]->0 > last
            ==> r is Some && r->0 <= candidates@[i]->0,
        r is Some ==> first == r
            || (r->0 > last && exists|i: int| 0 <= i < candidates@.len() && candidates@[i] == r),
        r is None ==> first is None
            && forall|i: int| #![trigger candidates@[i]]
                0 <= i < candidates@.len() ==> !(candidates@[i] is Some && candidates@[i]->0 > last),
{
    proof {
        lemma_earliest_candidate(candidates@, last);
    }
    let mut best: Option<i64> = None;
    let mut i: usize = 0;
    proof {
        assert(candidates@.take(0) =~= Seq::<Option<i64>>::empty());
    }
    while i < candidates.len()
        invariant
            i <= candidates@.len(),
            best == earliest_candidate(candidates@.take(i as int), last),
        decreases candidates@.len() - i,
    {
        match candidates[i] {
            Some(t) => {
                if t > last {
                    best = match best {
                        Some(b) => Some(if b <= t { b } else { t }),
                        None => Some(t),
                    };
                }
            },
            None => {},
        }
        proof {
            let ni = candidates@.take(i + 1);
            assert(ni.drop_last() =~= candidates@.take(i as int));
            assert(ni.last() == candidates@[i as int]);
        }
        i = i + 1;
    }
    proof {
        assert(candidates@.take(i as int) =~= candidates@);
    }
    match (first, best) {
        (Some(x), Some(y)) => Some(if x <= y { x } else { y }),
        (Some(x), None) => Some(x),
        (None, Some(y)) => Some(y),
        (None, None) => None,
    }
}

/// When the scheduler next wakes, seen at `now`: the earliest due time of
/// the one-time tasks or the earliest cron run after the last one.
pub open spec fn next_wakeup<H: ?Sized>(s: SchedulerState<H>, now: i64) -> Option<i64> {
    earlier(
        if s.times.len() > 0 { Some(s.times[0]) } else { None },
        earliest_cron(s.crons, now, s.last_cron_run),
    )
}

/// The next wake-up seen at `now` comes no later than the first due time
/// and no later than any cron task's next run after the last cron run, and
/// is one of these; there is none exactly when there is none of these.
pub proof fn lemma_next_wakeup_is_earliest<H: ?Sized>(s: SchedulerState<H>, now: i64)
    ensures
        s.times.len() > 0 ==> next_wakeup(s, now) is Some && next_wakeup(s, now)->0 <= s.times[0],
        forall|i: int| #![trigger s.crons[i]]
            0 <= i < s.crons.len() && cron_next_after(s.crons[i].0@, now) is Some
                && cron_next_after(s.crons[i].0@, now)->0 > s.last_cron_run
            ==> next_wakeup(s, now) is Some && next_wakeup(s, now)->0 <= cron_next_after(s.crons[i].0@, now)->0,
        next_wakeup(s, now) is Some ==> (s.times.len() > 0 && next_wakeup(s, now)->0 == s.times[0])
            || (next_wakeup(s, now)->0 > s.last_cron_run && exists|i: int|
                0 <= i < s.crons.len() && #[trigger] cron_next_after(s.crons[i].0@, now) == next_wakeup(s, now)),
        next_wakeup(s, now) is None ==> s.times.len() == 0 && forall|i: int| #![trigger s.crons[i]]
            0 <= i < s.crons.len() ==> !(cron_next_after(s.crons[i].0@, now) is Some
                && cron_next_after(s.crons[i].0@, now)->0 > s.last_cron_run),
{
    let c = next_runs(s.crons, now);
    lemma_earliest_candidate(c, s.last_cron_run);
    assert forall|i: int| 0 <= i < s.crons.len() implies c[i] == cron_next_after(s.crons[i].0@, now) by {}
    let e = earliest_candidate(c, s.last_cron_run);
    let w = next_wakeup(s, now);
    assert forall|i: int| #![trigger s.crons[i]]
        0 <= i < s.crons.len() && cron_next_after(s.crons[i].0@, now) is Some
            && cron_next_after(s.crons[i].0@, now)->0 > s.last_cron_run
        implies w is Some && w->0 <= cron_next_after(s.crons[i].0@, now)->0 by {
        assert(c[i] == cron_next_after(s.crons[i].0@, now));
    }
    if w is None {
        assert forall|i: int| #![trigger s.crons[i]] 0 <= i < s.crons.len()
            implies !(cron_next_after(s.crons[i].0@, now) is Some
                && cron_next_after(s.crons[i].0@, now)->0 > s.last_cron_run) by {
            assert(c[i] == cron_next_after(s.crons[i].0@, now));
        }
    }
    if e is Some {
        let k = choose|k: int| 0 <= k < c.len() && c[k] == e;
        assert(cron_next_after(s.crons[k].0@, now) == e);
    }
}

/// When the scheduler next wakes, seen at the clock reading `now`: past
/// the last time at which cron patterns can be searched, the earliest due
/// time of the one-time tasks.
pub open spec fn wakeup_seen_at<H: ?Sized>(s: SchedulerState<H>, now: i64) -> Option<i64> {
    if now <= CRON_AFTER_MAX {
        next_wakeup(s, now)
    } else if s.times.len() > 0 {
        Some(s.times[0])
    } else {
        None
    }
}

/// What the scheduler's loop does next.
#[derive(Debug, Clone, Copy, PartialEq, Eq, Structural)]
pub enum TickPlan {
    /// Nothing is scheduled: wait for a command.
    Hibernate,
    /// Sleep `sleep_millis`, then take the batch woken at `wake_at`,
    /// unless a command comes first.
    SleepUntil { wake_at: i64, sleep_millis: u64 },
}

/// The scheduler's state: one-time tasks by due time, cron tasks, and when
/// cron runs were last collected.
pub struct SkedgyScheduler<H: ?Sized> {
    config: SkedgyConfig,
    schedules: Schedules<H>,
    crons: Vec<(CronSchedule, SkedgyTask<H>)>,
    last_cron_run: i64,
}

impl<H: ?Sized> View for SkedgyScheduler<H> {
    type V = SchedulerState<H>;

    closed spec fn view(&self) -> SchedulerState<H> {
        SchedulerState {
            look_ahead: self.config.look_ahead_duration,
            times: self.schedules.times(),
            entries: self.schedules.entries(),
            crons: self.crons@,
            last_cron_run: self.last_cron_run,
        }
    }
}

/// The scheduler's tables are well formed: due times strictly increase,
/// one-time tasks are ordered by time and each time is among the due times.
pub open spec fn state_wf<H: ?Sized>(s: SchedulerState<H>) -> bool {
    &&& crate::table::strictly_increasing(s.times)
    &&& crate::ordering::time_sorted(s.entries)
    &&& forall|i: int| 0 <= i < s.entries.len() ==> s.times.contains(#[trigger] s.entries[i].0)
}

impl<H: ?Sized> SkedgyScheduler<H> {
    /// The scheduler's tables are well formed.
    pub open spec fn wf(&self) -> bool {
        state_wf(self@)
    }

    /// A scheduler with nothing scheduled, whose cron runs count from the
    /// start of the second that holds `now`.
    pub fn starting_at(config: SkedgyConfig, now: i64) -> (r: Self)
        requires
            MIN_MILLIS <= now,
        ensures
            r.wf(),
            r@.look_ahead == config.look_ahead_duration,
            r@.times == Seq::<i64>::empty(),
            r@.entries == Seq::<(i64, SkedgyTask<H>)>::empty(),
            r@.crons == Seq::<(CronSchedule, SkedgyTask<H>)>::empty(),
            r@.last_cron_run == whole_second(now),
    {
        let rem = ((now as i128 - MIN_MILLIS as i128) % 1000) as i64;
        proof {
            vstd::arithmetic::div_mod::lemma_mod_multiples_vanish(8334601315200, now as int, 1000);
            assert(1000 * 8334601315200 + now == now - MIN_MILLIS);
        }
        let start = now - rem;
        SkedgyScheduler {
            config,
            schedules: Schedules::new(),
            crons: Vec::new(),
            last_cron_run: start,
        }
    }

    /// The one-time tasks by due time.
    pub fn schedules(&self) -> (r: &Schedules<H>)
        ensures
            r.wf() == self.wf(),
            r.times() == self@.times,
            r.entries() == self@.entries,
    {
        &self.schedules
    }

    /// The cron tasks with their schedules.
    pub fn crons(&self) -> (r: &Vec<(CronSchedule, SkedgyTask<H>)>)
        ensures
            r@ == self@.crons,
    {
        &self.crons
    }

    /// The first cron run of the last batch that held cron runs.
    pub fn last_cron_run(&self) -> (r: i64)
        ensures
            r == self@.last_cron_run,
    {
        self.last_cron_run
    }

    /// The configuration it was made with.
    pub fn config(&self) -> (r: SkedgyConfig)
        ensures
            r.look_ahead_duration == self@.look_ahead,
    {
        self.config
    }

    /// Drops every cron task named `id`.
    fn remove_cron(&mut self, id: &String)
        ensures
            final(self)@ == (SchedulerState { crons: old(self)@.crons.filter(cron_not_named::<H>(id@)), ..old(self)@ }),
    {
        let ghost old_crons = self.crons@;
        let ghost pred: spec_fn((CronSchedule, SkedgyTask<H>)) -> bool = cron_not_named::<H>(id@);
        let mut i: usize = 0;
        let ghost mut seen: int = 0;
        while i < self.crons.len()
            invariant
                0 <= i <= seen <= old_crons.len(),
                pred == cron_not_named::<H>(id@),
                self.crons@.len() == i + (old_crons.len() - seen),
                self.crons@.take(i as int) == old_crons.take(seen).filter(pred),
                self.crons@.skip(i as int) == old_crons.skip(seen),
                self.config == old(self).config,
                self.schedules == old(self).schedules,
                self.last_cron_run == old(self).last_cron_run,
            decreases self.crons@.len() - i,
        {
            let ghost before = self.crons@;
            proof {
                assert(before[i as int] == before.skip(i as int)[0]);
                assert(old_crons.skip(seen)[0] == old_crons[seen]);
                crate::ordering::lemma_filter_take_succ(old_crons, seen, pred);
            }
            if self.crons[i].1.id == *id {
                self.crons.remove(i);
                proof {
                    assert(before[i as int] == old_crons[seen]);
                    assert(!pred(old_crons[seen]));
                    assert(self.crons@.take(i as int) =~= before.take(i as int));
                    assert forall|j: int| 0 <= j < self.crons@.skip(i as int).len() implies
                        #[trigger] self.crons@.skip(i as int)[j] == old_crons.skip(seen + 1)[j] by {
                        assert(self.crons@[i + j] == before[i + 1 + j]);
                        assert(before.skip(i as int)[1 + j] == old_crons.skip(seen)[1 + j]);
                    }
                    assert(self.crons@.skip(i as int) =~= old_crons.skip(seen + 1));
                    seen = seen + 1;
                }
            } else {
                proof {
                    assert(before[i as int] == old_crons[seen]);
                    assert(pred(old_crons[seen]));
                    assert(before.take(i + 1) =~= before.take(i as int).push(before[i as int]));
                    assert forall|j: int| 0 <= j < before.skip(i + 1).len() implies
                        #[trigger] before.skip(i + 1)[j] == old_crons.skip(seen + 1)[j] by {
                        assert(before.skip(i as int)[1 + j] == old_crons.skip(seen)[1 + j]);
                    }
                    assert(before.skip(i + 1) =~= old_crons.skip(seen + 1));
                    seen = seen + 1;
                }
                i = i + 1;
            }
        }
        proof {
            assert(self.crons@ =~= self.crons@.take(i as int));
            assert(old_crons.take(seen) =~= old_crons);
        }
    }

    /// Schedules `task` at `now`: a one-time task by its due time (a delay
    /// counts from `now`), a cron task after the cron tasks already there.
    fn schedule(&mut self, task: SkedgyTask<H>, now: i64)
        requires
            old(self).wf(),
            (task.kind matches TaskKind::In(d) ==> now + d <= i64::MAX),
        ensures
            final(self).wf(),
            final(self)@ == schedule_task(old(self)@, task, now),
    {
        match &task.kind {
            TaskKind::At(t) => {
                let t = *t;
                self.schedules.insert(t, task);
            },
            TaskKind::In(d) => {
                let t = (now as i128 + *d as i128) as i64;
                self.schedules.insert(t, task);
            },
            TaskKind::Cron(c) => {
                let c = c.duplicate();
                self.crons.push((c, task));
            },
        }
    }

    /// Handles one command at `now`.
    pub fn handle_command(&mut self, command: SkedgyCommand<H>, now: i64)
        requires
            old(self).wf(),
            command_in_range(command, now),
        ensures
            final(self).wf(),
            final(self)@ == apply_command(old(self)@, command, now),
    {
        match command {
            SkedgyCommand::Add(task) => {
                self.schedule(task, now);
            },
            SkedgyCommand::Remove(id) => {
                self.schedules.remove_named(&id);
                self.remove_cron(&id);
            },
            SkedgyCommand::Update(task) => {
                self.schedules.remove_named(&task.id);
                self.remove_cron(&task.id);
                self.schedule(task, now);
            },
        }
    }

    /// Handles the commands in order at `now`.
    pub fn handle_commands(&mut self, commands: Vec<SkedgyCommand<H>>, now: i64)
        requires
            old(self).wf(),
            commands_in_range(commands@, now),
        ensures
            final(self).wf(),
            final(self)@ == apply_commands(old(self)@, commands@, now),
    {
        let ghost orig = commands@;
        let mut rest = commands;
        let ghost mut done: Seq<SkedgyCommand<H>> = Seq::empty();
        while rest.len() > 0
            invariant
                self.wf(),
                done + rest@ == orig,
                commands_in_range(orig, now),
                self@ == apply_commands(old(self)@, done, now),
            decreases rest.len(),
        {
            let c = rest.remove(0);
            proof {
                assert(orig[done.len() as int] == c);
                assert(command_in_range(orig[done.len() as int], now));
                assert(done.push(c).drop_last() =~= done);
                assert(done.push(c) + rest@ =~= orig);
            }
            self.handle_command(c, now);
            proof {
                done = done.push(c);
            }
        }
        proof {
            assert(done =~= orig);
        }
    }

    /// Every run of every cron task strictly after `start` and before
    /// `end`, cron task by cron task, each paired with a copy of its task.
    fn query_crons(&self, start: i64, end: i64) -> (r: Vec<(i64, SkedgyTask<H>)>)
        requires
            MIN_MILLIS <= start,
            self@.crons.len() > 0 ==> end <= CRON_AFTER_MAX + 1,
        ensures
            r@ == cron_batch(self@.crons, start, end),
    {
        let ghost crons = self.crons@;
        let mut batch: Vec<(i64, SkedgyTask<H>)> = Vec::new();
        let mut i: usize = 0;
        proof {
            assert(crons.take(0) =~= Seq::<(CronSchedule, SkedgyTask<H>)>::empty());
        }
        while i < self.crons.len()
            invariant
                i <= crons.len(),
                crons == self.crons@,
                MIN_MILLIS <= start,
                crons.len() > 0 ==> end <= CRON_AFTER_MAX + 1,
                batch@ == cron_batch(crons.take(i as int), start, end),
            decreases crons.len() - i,
        {
            let runs = self.crons[i].0.runs_between(start, end);
            let ghost c = crons[i as int];
            let ghost prefix = batch@;
            let mut j: usize = 0;
            proof {
                assert(prefix + runs@.take(0).map_values(|r: i64| (r, c.1)) =~= prefix);
            }
            while j < runs.len()
                invariant
                    j <= runs@.len(),
                    i < crons.len(),
                    crons == self.crons@,
                    c == crons[i as int],
                    batch@ == prefix + runs@.take(j as int).map_values(|r: i64| (r, c.1)),
                decreases runs@.len() - j,
            {
                let task = self.crons[i].1.duplicate();
                batch.push((runs[j], task));
                proof {
                    assert(batch@ =~= prefix + runs@.take(j + 1).map_values(|r: i64| (r, c.1)));
                }
                j = j + 1;
            }
            proof {
                let next = crons.take(i + 1);
                assert(next.drop_last() =~= crons.take(i as int));
                assert(next.last() == c);
                assert(runs@.take(j as int) =~= runs@);
                assert(batch@ =~= cron_batch(next, start, end));
            }
            i = i + 1;
        }
        proof {
            assert(crons.take(i as int) =~= crons);
        }
        batch
    }

    /// Takes the batch woken at `from`: the one-time tasks due before the
    /// end of the look-ahead window and, unless the last cron run lies
    /// inside the window, every cron run in the window, ordered by time.
    /// The first cron run taken becomes the last cron run.
    pub fn next_batch(&mut self, from: i64) -> (r: Vec<(i64, SkedgyTask<H>)>)
        requires
            old(self).wf(),
            MIN_MILLIS + 1 <= from,
            from + old(self)@.look_ahead <= MAX_MILLIS,
            old(self)@.crons.len() > 0 && looks_up_crons(old(self)@, from) ==> from + old(self)@.look_ahead <= CRON_AFTER_MAX + 1,
        ensures
            final(self).wf(),
            final(self)@ == after_batch(old(self)@, from),
            is_time_ordering(r@, due_batch(old(self)@, from)),
    {
        let look_ahead_time = from + self.config.look_ahead_duration as i64;
        let look_behind_time = from - 1;
        let schedule_batch = self.schedules.take_before(look_ahead_time);
        let query_for_crons = !(self.last_cron_run > look_behind_time && self.last_cron_run < look_ahead_time);
        let mut cron_batch: Vec<(i64, SkedgyTask<H>)> = Vec::new();
        if query_for_crons {
            cron_batch = self.query_crons(look_behind_time, look_ahead_time);
            if cron_batch.len() > 0 {
                self.last_cron_run = cron_batch[0].0;
            }
        }
        merge_by_time(schedule_batch, cron_batch)
    }

    /// Whether the batch woken at `from` searches cron patterns: there are
    /// cron tasks and the last cron run does not lie inside the window.
    pub fn searches_crons(&self, from: i64) -> (r: bool)
        requires
            MIN_MILLIS + 1 <= from,
            from + self@.look_ahead <= MAX_MILLIS,
        ensures
            r == (self@.crons.len() > 0 && looks_up_crons(self@, from)),
    {
        let look_ahead_time = from + self.config.look_ahead_duration as i64;
        let look_behind_time = from - 1;
        self.crons.len() > 0 && !(self.last_cron_run > look_behind_time && self.last_cron_run < look_ahead_time)
    }

    /// When the scheduler next wakes, seen at `now`.
    pub fn next_schedule_time_at(&self, now: i64) -> (r: Option<i64>)
        requires
            MIN_MILLIS <= now <= MAX_MILLIS,
            self@.crons.len() > 0 ==> now <= CRON_AFTER_MAX,
        ensures
            r == next_wakeup(self@, now),
            self@.times.len() > 0 ==> r is Some && r->0 <= self@.times[0],
            forall|i: int| #![trigger self@.crons[i]]
                0 <= i < self@.crons.len() && cron_next_after(self@.crons[i].0@, now) is Some
                    && cron_next_after(self@.crons[i].0@, now)->0 > self@.last_cron_run
                ==> r is Some && r->0 <= cron_next_after(self@.crons[i].0@, now)->0,
            r is Some ==> (self@.times.len() > 0 && r->0 == self@.times[0])
                || (r->0 > self@.last_cron_run && exists|i: int|
                    0 <= i < self@.crons.len() && #[trigger] cron_next_after(self@.crons[i].0@, now) == r),
    {
        proof {
            lemma_next_wakeup_is_earliest(self@, now);
        }
        let candidates = self.next_cron_runs(now);
        earliest_wakeup(self.schedules.first_time(), &candidates, self.last_cron_run)
    }

    /// The next run after `now` of each cron task, in order.
    pub fn next_cron_runs(&self, now: i64) -> (r: Vec<Option<i64>>)
        requires
            MIN_MILLIS <= now <= MAX_MILLIS,
            self@.crons.len() > 0 ==> now <= CRON_AFTER_MAX,
        ensures
            r@ == next_runs(self@.crons, now),
    {
        let mut out: Vec<Option<i64>> = Vec::new();
        let mut i: usize = 0;
        while i < self.crons.len()
            invariant
                i <= self.crons@.len(),
                MIN_MILLIS <= now <= MAX_MILLIS,
                self.crons@.len() > 0 ==> now <= CRON_AFTER_MAX,
                out@ == next_runs(self.crons@.take(i as int), now),
            decreases self.crons@.len() - i,
        {
            let next = self.crons[i].0.next_after(now);
            out.push(next);
            proof {
                assert(out@ =~= next_runs(self.crons@.take(i + 1), now));
            }
            i = i + 1;
        }
        proof {
            assert(self.crons@.take(i as int) =~= self.crons@);
        }
        out
    }

    /// When the scheduler next wakes, seen at the current time. Past the
    /// last time at which cron patterns can be searched, the cron runs are
    /// searched from that last time.
    pub fn next_schedule_time(&self) -> (r: Option<i64>)
        ensures
            exists|now: i64| MIN_MILLIS <= now <= MAX_MILLIS && r == #[trigger] wakeup_seen_at(self@, now),
            exists|now: i64| MIN_MILLIS <= now <= CRON_AFTER_MAX && r == #[trigger] next_wakeup(self@, now),
    {
        let reading = now_millis();
        let now = if reading <= CRON_AFTER_MAX { reading } else { CRON_AFTER_MAX };
        let r = self.next_schedule_time_at(now);
        proof {
            assert(r == wakeup_seen_at(self@, now));
            assert(r == next_wakeup(self@, now));
        }
        r
    }

    /// What the loop does next, seen at `now`: wait for a command when
    /// nothing is scheduled, else sleep until the next wake-up (not at all
    /// when it has passed).
    pub fn plan_tick(&self, now: i64) -> (r: TickPlan)
        requires
            MIN_MILLIS <= now <= MAX_MILLIS,
            self@.crons.len() > 0 ==> now <= CRON_AFTER_MAX,
        ensures
            r == (match next_wakeup(self@, now) {
                None => TickPlan::Hibernate,
                Some(t) => TickPlan::SleepUntil {
                    wake_at: t,
                    sleep_millis: if t > now { (t - now) as u64 } else { 0 },
                },
            }),
    {
        match self.next_schedule_time_at(now) {
            None => TickPlan::Hibernate,
            Some(t) => {
                let sleep_millis: u64 = if t > now { (t as i128 - now as i128) as u64 } else { 0 };
                TickPlan::SleepUntil { wake_at: t, sleep_millis }
            },
        }
    }

    /// A snapshot of the scheduled tasks.
    pub fn state(&self) -> (r: SkedgyState<H>)
        ensures
            r@ == snapshot(self@),
    {
        SkedgyState::new(&self.crons, &self.schedules)
    }

    /// Replaces the scheduled tasks by those of a snapshot.
    pub fn load(&mut self, state: SkedgyState<H>)
        ensures
            final(self).wf(),
            final(self)@ == loaded(old(self)@, state@),
    {
        self.crons = state.crons();
        self.schedules = state.schedules();
    }

    /// A scheduler with nothing scheduled, whose cron runs count from the
    /// start of the current second.
    pub fn new(config: SkedgyConfig) -> (r: Self)
        ensures
            r.wf(),
            r@.look_ahead == config.look_ahead_duration,
            r@.times == Seq::<i64>::empty(),
            r@.entries == Seq::<(i64, SkedgyTask<H>)>::empty(),
            r@.crons == Seq::<(CronSchedule, SkedgyTask<H>)>::empty(),
            exists|now: i64| MIN_MILLIS <= now <= MAX_MILLIS && r@.last_cron_run == whole_second(now),
    {
        let now = now_millis();
        Self::starting_at(config, now)
    }
}

/// What the handlers of a batch are given: for each entry, in order, its
/// task's identifier and due time, with the task's handler.
pub fn dispatch_list<H: ?Sized>(batch: &Vec<(i64, SkedgyTask<H>)>) -> (r: Vec<(Metadata, Arc<H>)>)
    ensures
        r@.len() == batch@.len(),
        forall|i: int| 0 <= i < batch@.len() ==> {
            &&& (#[trigger] r@[i]).0.id == batch@[i].1.id
            &&& r@[i].0.target_time == batch@[i].0
            &&& r@[i].1 == batch@[i].1.task
        },
{
    let mut out: Vec<(Metadata, Arc<H>)> = Vec::new();
    let mut i: usize = 0;
    while i < batch.len()
        invariant
            i <= batch@.len(),
            out@.len() == i,
            forall|k: int| 0 <= k < i ==> {
                &&& (#[trigger] out@[k]).0.id == batch@[k].1.id
                &&& out@[k].0.target_time == batch@[k].0
                &&& out@[k].1 == batch@[k].1.task
            },
        decreases batch@.len() - i,
    {
        let metadata = Metadata { id: batch[i].1.id.clone(), target_time: batch[i].0 };
        out.push((metadata, arc_clone(&batch[i].1.task)));
        i = i + 1;
    }
    out
}

} // verus!
