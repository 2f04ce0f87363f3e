use vstd::prelude::*;

use crate::cron_schedule::CronSchedule;
use crate::table::{insert_at_time, insert_time, Schedules};
use crate::task::{SkedgyTask, TaskKind};

verus! {

/// The cron entry that a task stands for, where it is a cron task.
pub open spec fn cron_entry_of<H: ?Sized>() -> spec_fn(SkedgyTask<H>) -> Option<(CronSchedule, SkedgyTask<H>)> {
    |t: SkedgyTask<H>| match t.kind {
        TaskKind::Cron(c) => Some((c, t)),
        _ => None,
    }
}

/// The one-time entries that a list of tasks stands for: each task due at a
/// point in time, added in order as the scheduler adds it.
pub open spec fn at_entries<H: ?Sized>(tasks: Seq<SkedgyTask<H>>) -> Seq<(i64, SkedgyTask<H>)>
    decreases tasks.len(),
{
    if tasks.len() == 0 {
        Seq::empty()
    } else {
        let rest = at_entries(tasks.drop_last());
        match tasks.last().kind {
            TaskKind::At(t) => insert_at_time(rest, t, tasks.last()),
            _ => rest,
        }
    }
}

/// The due times of the tasks due at a point in time, added in order.
pub open spec fn at_times<H: ?Sized>(tasks: Seq<SkedgyTask<H>>) -> Seq<i64>
    decreases tasks.len(),
{
    if tasks.len() == 0 {
        Seq::empty()
    } else {
        let rest = at_times(tasks.drop_last());
        match tasks.last().kind {
            TaskKind::At(t) => insert_time(rest, t),
            _ => rest,
        }
    }
}

/// A snapshot of the scheduled tasks: the cron tasks first, then the
/// one-time tasks in due order.
pub struct SkedgyState<H: ?Sized> {
    tasks: Vec<SkedgyTask<H>>,
}

impl<H: ?Sized> View for SkedgyState<H> {
    type V = Seq<SkedgyTask<H>>;

    closed spec fn view(&self) -> Seq<SkedgyTask<H>> {
        self.tasks@
    }
}

impl<H: ?Sized> SkedgyState<H> {
    /// A snapshot of the cron entries followed by the one-time entries.
    pub fn new(crons: &Vec<(CronSchedule, SkedgyTask<H>)>, schedules: &Schedules<H>) -> (r: Self)
        ensures
            r@ == crons@.map_values(|c: (CronSchedule, SkedgyTask<H>)| c.1)
                + schedules.entries().map_values(|e: (i64, SkedgyTask<H>)| e.1),
    {
        let mut tasks: Vec<SkedgyTask<H>> = Vec::new();
        let mut i: usize = 0;
        while i < crons.len()
            invariant
                i <= crons@.len(),
                tasks@ == crons@.take(i as int).map_values(|c: (CronSchedule, SkedgyTask<H>)| c.1),
            decreases crons@.len() - i,
        {
            tasks.push(crons[i].1.duplicate());
            proof {
                assert(tasks@ =~= crons@.take(i + 1).map_values(|c: (CronSchedule, SkedgyTask<H>)| c.1));
            }
            i = i + 1;
        }
        proof {
            assert(crons@.take(i as int) =~= crons@);
        }
        let entries = schedules.entry_list();
        let ghost head = tasks@;
        let mut j: usize = 0;
        while j < entries.len()
            invariant
                j <= entries@.len(),
                entries@ == schedules.entries(),
                tasks@ == head + entries@.take(j as int).map_values(|e: (i64, SkedgyTask<H>)| e.1),
            decreases entries@.len() - j,
        {
            tasks.push(entries[j].1.duplicate());
            proof {
                assert(tasks@ =~= head + entries@.take(j + 1).map_values(|e: (i64, SkedgyTask<H>)| e.1));
            }
            j = j + 1;
        }
        proof {
            assert(entries@.take(j as int) =~= entries@);
        }
        SkedgyState { tasks }
    }

    /// The tasks, cron tasks first.
    pub fn tasks(&self) -> (r: &Vec<SkedgyTask<H>>)
        ensures
            r@ == self@,
    {
        &self.tasks
    }

    /// The cron tasks, each with its schedule, in order.
    pub fn crons(&self) -> (r: Vec<(CronSchedule, SkedgyTask<H>)>)
        ensures
            r@ == self@.filter_map(cron_entry_of::<H>()),
    {
        let mut out: Vec<(CronSchedule, SkedgyTask<H>)> = Vec::new();
        let mut i: usize = 0;
        proof {
            assert(self.tasks@.take(0) =~= Seq::<SkedgyTask<H>>::empty());
        }
        while i < self.tasks.len()
            invariant
                i <= self.tasks@.len(),
                out@ == self.tasks@.take(i as int).filter_map(cron_entry_of::<H>()),
            decreases self.tasks@.len() - i,
        {
            proof {
                self.tasks@.lemma_filter_map_take_succ(cron_entry_of::<H>(), i as int);
            }
            match &self.tasks[i].kind {
                TaskKind::Cron(c) => {
                    out.push((c.duplicate(), self.tasks[i].duplicate()));
                    proof {
                        assert(out@ =~= self.tasks@.take(i + 1).filter_map(cron_entry_of::<H>()));
                    }
                },
                _ => {
                    proof {
                        assert(out@ =~= self.tasks@.take(i + 1).filter_map(cron_entry_of::<H>()));
                    }
                },
            }
            i = i + 1;
        }
        proof {
            assert(self.tasks@.take(i as int) =~= self.tasks@);
        }
        out
    }

    /// The tasks due at a point in time, in a table by due time.
    pub fn schedules(&self) -> (r: Schedules<H>)
        ensures
            r.wf(),
            r.entries() == at_entries(self@),
            r.times() == at_times(self@),
    {
        let mut table: Schedules<H> = Schedules::new();
        let mut i: usize = 0;
        proof {
            assert(self.tasks@.take(0) =~= Seq::<SkedgyTask<H>>::empty());
        }
        while i < self.tasks.len()
            invariant
                i <= self.tasks@.len(),
                table.wf(),
                table.entries() == at_entries(self.tasks@.take(i as int)),
                table.times() == at_times(self.tasks@.take(i as int)),
            decreases self.tasks@.len() - i,
        {
            proof {
                let ts = self.tasks@.take(i + 1);
                assert(ts.drop_last() =~= self.tasks@.take(i as int));
                assert(ts.last() == self.tasks@[i as int]);
            }
            match &self.tasks[i].kind {
                TaskKind::At(t) => {
                    let t = *t;
                    table.insert(t, self.tasks[i].duplicate());
                },
                _ => {},
            }
            i = i + 1;
        }
        proof {
            assert(self.tasks@.take(i as int) =~= self.tasks@);
        }
        table
    }
}

} // verus!
