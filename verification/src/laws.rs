use vstd::prelude::*;

use crate::cron_schedule::{cron_runs, CronSchedule};
use crate::ordering::time_sorted;
use crate::scheduler::{
    after_batch, apply_command, apply_commands, command_in_range, schedule_task, without_named, cron_batch, cron_not_named, due_batch,
    looks_up_crons, next_wakeup, state_wf, window_crons, window_end, SchedulerState, SkedgyCommand,
};
use crate::table::{due_after, due_before, due_by, due_from, insert_at_time, insert_time, not_named, earlier_than};
use crate::task::{SkedgyTask, TaskKind};
use crate::scheduler::{loaded, snapshot};
use crate::state::{at_entries, at_times, cron_entry_of};
use crate::table::{later_than, strictly_increasing};

verus! {

/// The time a task added at `now` is due: its time, or `now` plus its
/// delay. Cron tasks have none.
pub open spec fn due_time<H: ?Sized>(task: SkedgyTask<H>, now: i64) -> Option<i64> {
    match task.kind {
        TaskKind::At(t) => Some(t),
        TaskKind::In(d) => Some((now + d) as i64),
        TaskKind::Cron(_) => None,
    }
}

/// After removing `id`, no task of that identifier is left, one-time or
/// cron, every other task stays, and the due times are untouched.
pub proof fn lemma_remove_leaves_none<H: ?Sized>(s: SchedulerState<H>, id: String, now: i64)
    ensures
        ({
            let r = apply_command(s, SkedgyCommand::Remove(id), now);
            &&& forall|i: int| 0 <= i < r.entries.len() ==> (#[trigger] r.entries[i]).1.id@ != id@
            &&& forall|i: int| 0 <= i < r.crons.len() ==> (#[trigger] r.crons[i]).1.id@ != id@
            &&& forall|i: int| 0 <= i < s.entries.len() && (#[trigger] s.entries[i]).1.id@ != id@ ==> r.entries.contains(s.entries[i])
            &&& forall|i: int| 0 <= i < s.crons.len() && (#[trigger] s.crons[i]).1.id@ != id@ ==> r.crons.contains(s.crons[i])
            &&& r.times == s.times
        }),
{
    let r = apply_command(s, SkedgyCommand::Remove(id), now);
    let pe = not_named::<H>(id@);
    let pc = cron_not_named::<H>(id@);
    assert forall|i: int| 0 <= i < r.entries.len() implies (#[trigger] r.entries[i]).1.id@ != id@ by {
        s.entries.lemma_filter_pred(pe, i);
    }
    assert forall|i: int| 0 <= i < r.crons.len() implies (#[trigger] r.crons[i]).1.id@ != id@ by {
        s.crons.lemma_filter_pred(pc, i);
    }
    assert forall|i: int| 0 <= i < s.entries.len() && (#[trigger] s.entries[i]).1.id@ != id@ implies r.entries.contains(s.entries[i]) by {
        s.entries.lemma_filter_contains(pe, i);
    }
    assert forall|i: int| 0 <= i < s.crons.len() && (#[trigger] s.crons[i]).1.id@ != id@ implies r.crons.contains(s.crons[i]) by {
        s.crons.lemma_filter_contains(pc, i);
    }
}

/// Removing the same identifier twice does what removing it once does.
pub proof fn lemma_remove_twice<H: ?Sized>(s: SchedulerState<H>, id: String, now: i64)
    ensures
        apply_command(apply_command(s, SkedgyCommand::Remove(id), now), SkedgyCommand::Remove(id), now)
            == apply_command(s, SkedgyCommand::Remove(id), now),
{
    let r = apply_command(s, SkedgyCommand::Remove(id), now);
    let pe = not_named::<H>(id@);
    let pc = cron_not_named::<H>(id@);
    assert forall|i: int| 0 <= i < r.entries.len() implies pe(r.entries[i]) by {
        s.entries.lemma_filter_pred(pe, i);
    }
    assert forall|i: int| 0 <= i < r.crons.len() implies pc(r.crons[i]) by {
        s.crons.lemma_filter_pred(pc, i);
    }
    crate::ordering::lemma_filter_all(r.entries, pe);
    crate::ordering::lemma_filter_all(r.crons, pc);
    assert(apply_command(r, SkedgyCommand::Remove(id), now) =~= r);
}

/// A one-time task added at `now`, due at `t`: the scheduler then wakes no
/// later than `t`, and a batch whose window ends after `t` holds the task
/// at `t`.
pub proof fn lemma_added_task_runs<H: ?Sized>(s: SchedulerState<H>, task: SkedgyTask<H>, now: i64, from: i64)
    requires
        due_time(task, now) is Some,
        command_in_range(SkedgyCommand::Add(task), now),
    ensures
        ({
            let r = apply_command(s, SkedgyCommand::Add(task), now);
            let t = due_time(task, now)->Some_0;
            &&& next_wakeup(r, now) matches Some(w) && w <= t
            &&& (t < window_end(r, from) ==> due_batch(r, from).contains((t, task)))
        }),
{
    let r = apply_command(s, SkedgyCommand::Add(task), now);
    let t = due_time(task, now)->Some_0;
    assert(r.times == insert_time(s.times, t));
    assert(r.entries == insert_at_time(s.entries, t, task));
    let a = s.times.filter(earlier_than(t));
    if a.len() > 0 {
        s.times.lemma_filter_pred(earlier_than(t), 0);
        assert(r.times[0] == a[0]);
    } else {
        assert(r.times[0] == t);
    }
    let ea = s.entries.filter(due_by::<SkedgyTask<H>>(t));
    let e = r.entries;
    assert(e[ea.len() as int] == (t, task));
    if t < window_end(r, from) {
        e.lemma_filter_contains(due_before::<SkedgyTask<H>>(window_end(r, from)), ea.len() as int);
        let f = e.filter(due_before::<SkedgyTask<H>>(window_end(r, from)));
        let k = choose|k: int| 0 <= k < f.len() && f[k] == (t, task);
        assert(due_batch(r, from)[k] == (t, task));
    }
}

/// Every run in `cron_runs(p, start, end)` lies strictly between `start`
/// and `end`.
pub proof fn lemma_cron_runs_inside(p: Seq<char>, start: i64, end: i64)
    ensures
        forall|i: int| 0 <= i < cron_runs(p, start, end).len() ==> start < #[trigger] cron_runs(p, start, end)[i] < end,
    decreases end - start,
{
    if start < end {
        match crate::cron_schedule::cron_next_after(p, start) {
            Some(n) => if start < n && n < end {
                lemma_cron_runs_inside(p, n, end);
                let rest = cron_runs(p, n, end);
                assert forall|i: int| 0 <= i < cron_runs(p, start, end).len() implies start < #[trigger] cron_runs(p, start, end)[i] < end by {
                    if i > 0 {
                        assert(cron_runs(p, start, end)[i] == rest[i - 1]);
                    }
                }
            },
            None => {},
        }
    }
}

/// Every entry of a cron batch lies strictly between `start` and `end`.
pub proof fn lemma_cron_batch_inside<H: ?Sized>(crons: Seq<(CronSchedule, SkedgyTask<H>)>, start: i64, end: i64)
    ensures
        forall|i: int| 0 <= i < cron_batch(crons, start, end).len() ==> start < (#[trigger] cron_batch(crons, start, end)[i]).0 < end,
    decreases crons.len(),
{
    if crons.len() > 0 {
        let c = crons.last();
        lemma_cron_batch_inside(crons.drop_last(), start, end);
        lemma_cron_runs_inside(c.0@, start, end);
        let a = cron_batch(crons.drop_last(), start, end);
        let runs = cron_runs(c.0@, start, end);
        assert forall|i: int| 0 <= i < cron_batch(crons, start, end).len() implies start < (#[trigger] cron_batch(crons, start, end)[i]).0 < end by {
            if i >= a.len() {
                assert(cron_batch(crons, start, end)[i].0 == runs[i - a.len()]);
            } else {
                assert(cron_batch(crons, start, end)[i] == a[i]);
            }
        }
    }
}

/// After a batch is taken at `from`, no one-time task due before the
/// window's end is left, and when the batch held cron runs, waking at
/// `from` again does not collect cron runs again.
pub proof fn lemma_batch_not_repeated<H: ?Sized>(s: SchedulerState<H>, from: i64)
    requires
        i64::MIN < from,
        from + s.look_ahead <= i64::MAX,
    ensures
        ({
            let r = after_batch(s, from);
            &&& forall|i: int| 0 <= i < r.entries.len() ==> (#[trigger] r.entries[i]).0 >= window_end(s, from)
            &&& (window_crons(s, from).len() > 0 ==> !looks_up_crons(r, from))
        }),
{
    let r = after_batch(s, from);
    let end = window_end(s, from);
    assert forall|i: int| 0 <= i < r.entries.len() implies (#[trigger] r.entries[i]).0 >= end by {
        s.entries.lemma_filter_pred(due_from::<SkedgyTask<H>>(end), i);
    }
    if window_crons(s, from).len() > 0 {
        lemma_cron_batch_inside(s.crons, (from - 1) as i64, end);
        assert(window_crons(s, from) == cron_batch(s.crons, (from - 1) as i64, end));
        assert(r.last_cron_run == window_crons(s, from)[0].0);
        assert(window_end(r, from) == end);
    }
}

/// Holds of an entry whose task is named `id`.
pub open spec fn named<H: ?Sized>(id: Seq<char>) -> spec_fn((i64, SkedgyTask<H>)) -> bool {
    |e: (i64, SkedgyTask<H>)| e.1.id@ == id
}

/// Holds of a cron entry whose task is named `id`.
pub open spec fn cron_named<H: ?Sized>(id: Seq<char>) -> spec_fn((CronSchedule, SkedgyTask<H>)) -> bool {
    |c: (CronSchedule, SkedgyTask<H>)| c.1.id@ == id
}

/// After an update the updated task is the only task of its identifier: a
/// one-time task once, at its due time, or a cron task once, on its
/// schedule; every task of another identifier stays, and the due times
/// gain at most the new one.
pub proof fn lemma_update_replaces<H: ?Sized>(s: SchedulerState<H>, task: SkedgyTask<H>, now: i64)
    requires
        command_in_range(SkedgyCommand::Update(task), now),
    ensures
        ({
            let r = apply_command(s, SkedgyCommand::Update(task), now);
            let id = task.id@;
            &&& r.entries.filter(named::<H>(id)) == (match due_time(task, now) {
                Some(t) => seq![(t, task)],
                None => Seq::empty(),
            })
            &&& r.crons.filter(cron_named::<H>(id)) == (match task.kind {
                TaskKind::Cron(c) => seq![(c, task)],
                _ => Seq::empty(),
            })
            &&& forall|i: int| 0 <= i < s.entries.len() && (#[trigger] s.entries[i]).1.id@ != id ==> r.entries.contains(s.entries[i])
            &&& forall|i: int| 0 <= i < s.crons.len() && (#[trigger] s.crons[i]).1.id@ != id ==> r.crons.contains(s.crons[i])
        }),
{
    let id = task.id@;
    let w = crate::scheduler::without_named(s, id);
    let r = apply_command(s, SkedgyCommand::Update(task), now);
    assert(r == crate::scheduler::schedule_task(w, task, now));
    lemma_remove_leaves_none(s, task.id, now);
    assert(apply_command(s, SkedgyCommand::Remove(task.id), now) == w);
    let pe = named::<H>(id);
    let pc = cron_named::<H>(id);
    assert forall|i: int| 0 <= i < w.entries.len() implies !pe(w.entries[i]) by {
        assert(w.entries[i].1.id@ != id);
    }
    assert forall|i: int| 0 <= i < w.crons.len() implies !pc(w.crons[i]) by {
        assert(w.crons[i].1.id@ != id);
    }
    crate::ordering::lemma_filter_none(w.crons, pc);
    match task.kind {
        TaskKind::Cron(c) => {
            crate::ordering::lemma_filter_none(w.entries, pe);
            assert(r.crons == w.crons.push((c, task)));
            w.crons.lemma_filter_push((c, task), pc);
            assert(Seq::<(CronSchedule, SkedgyTask<H>)>::empty().push((c, task)) =~= seq![(c, task)]);
            assert forall|i: int| 0 <= i < s.crons.len() && (#[trigger] s.crons[i]).1.id@ != id implies r.crons.contains(s.crons[i]) by {
                let k = choose|k: int| 0 <= k < w.crons.len() && w.crons[k] == s.crons[i];
                assert(r.crons[k] == s.crons[i]);
            }
        },
        _ => {
            let t = due_time(task, now)->Some_0;
            assert(r.entries == insert_at_time(w.entries, t, task));
            assert(r.crons == w.crons);
            lemma_insert_named(w.entries, t, task);
            assert forall|i: int| 0 <= i < s.entries.len() && (#[trigger] s.entries[i]).1.id@ != id implies r.entries.contains(s.entries[i]) by {
                let x = s.entries[i];
                let k = choose|k: int| 0 <= k < w.entries.len() && w.entries[k] == x;
                lemma_insert_keeps_entry(w.entries, t, task, k);
            }
        },
    }
}

/// Inserting a task into entries without its name leaves it the only entry
/// of that name.
proof fn lemma_insert_named<H: ?Sized>(e: Seq<(i64, SkedgyTask<H>)>, t: i64, task: SkedgyTask<H>)
    requires
        forall|i: int| 0 <= i < e.len() ==> !(named::<H>(task.id@))(#[trigger] e[i]),
    ensures
        insert_at_time(e, t, task).filter(named::<H>(task.id@)) == seq![(t, task)],
{
    let pe = named::<H>(task.id@);
    let a = e.filter(due_by::<SkedgyTask<H>>(t));
    let b = e.filter(due_after::<SkedgyTask<H>>(t));
    let x = seq![(t, task)];
    assert forall|i: int| 0 <= i < a.len() implies !pe(a[i]) by {
        assert(a.contains(a[i]));
        e.lemma_filter_contains_rev(due_by::<SkedgyTask<H>>(t), a[i]);
    }
    assert forall|i: int| 0 <= i < b.len() implies !pe(b[i]) by {
        assert(b.contains(b[i]));
        e.lemma_filter_contains_rev(due_after::<SkedgyTask<H>>(t), b[i]);
    }
    crate::ordering::lemma_filter_none(a, pe);
    crate::ordering::lemma_filter_none(b, pe);
    assert(pe(x[0]));
    crate::ordering::lemma_filter_all(x, pe);
    Seq::filter_distributes_over_add(a + x, b, pe);
    Seq::filter_distributes_over_add(a, x, pe);
    assert(Seq::<(i64, SkedgyTask<H>)>::empty() + x + Seq::<(i64, SkedgyTask<H>)>::empty() =~= x);
}

/// Inserting keeps every entry that was there.
proof fn lemma_insert_keeps_entry<H: ?Sized>(e: Seq<(i64, SkedgyTask<H>)>, t: i64, task: SkedgyTask<H>, k: int)
    requires
        0 <= k < e.len(),
    ensures
        insert_at_time(e, t, task).contains(e[k]),
{
    let a = e.filter(due_by::<SkedgyTask<H>>(t));
    let b = e.filter(due_after::<SkedgyTask<H>>(t));
    let r = insert_at_time(e, t, task);
    if e[k].0 <= t {
        e.lemma_filter_contains(due_by::<SkedgyTask<H>>(t), k);
        let m = choose|m: int| 0 <= m < a.len() && a[m] == e[k];
        assert(r[m] == e[k]);
    } else {
        e.lemma_filter_contains(due_after::<SkedgyTask<H>>(t), k);
        let m = choose|m: int| 0 <= m < b.len() && b[m] == e[k];
        assert(r[a.len() + 1 + m] == e[k]);
    }
}

/// Where an ordered sequence turns from entries due at or before `t` to
/// entries due after it.
pub open spec fn split_index<T>(e: Seq<(i64, T)>, t: i64) -> int
    decreases e.len(),
{
    if e.len() == 0 {
        0
    } else if e.last().0 <= t {
        e.len() as int
    } else {
        split_index(e.drop_last(), t)
    }
}

/// In an ordered sequence the entries before `split_index` are due at or
/// before `t` and the rest after it.
pub proof fn lemma_split_index<T>(e: Seq<(i64, T)>, t: i64)
    requires
        time_sorted(e),
    ensures
        0 <= split_index(e, t) <= e.len(),
        forall|j: int| 0 <= j < split_index(e, t) ==> (#[trigger] e[j]).0 <= t,
        forall|j: int| split_index(e, t) <= j < e.len() ==> (#[trigger] e[j]).0 > t,
    decreases e.len(),
{
    if e.len() > 0 {
        let d = e.drop_last();
        if e.last().0 <= t {
            assert forall|j: int| 0 <= j < e.len() implies (#[trigger] e[j]).0 <= t by {
                if j < e.len() - 1 {
                    assert(e[j].0 <= e[e.len() - 1].0);
                }
            }
        } else {
            assert forall|a: int, b: int| 0 <= a < b < d.len() implies d[a].0 <= d[b].0 by {
                assert(d[a] == e[a] && d[b] == e[b]);
            }
            lemma_split_index(d, t);
            assert forall|j: int| 0 <= j < split_index(e, t) implies (#[trigger] e[j]).0 <= t by {
                assert(e[j] == d[j]);
            }
            assert forall|j: int| split_index(e, t) <= j < e.len() implies (#[trigger] e[j]).0 > t by {
                if j < e.len() - 1 {
                    assert(e[j] == d[j]);
                }
            }
        }
    }
}

/// An ordered sequence is its entries due at or before `t` followed by
/// those due after `t`.
pub proof fn lemma_split_at_time<T>(e: Seq<(i64, T)>, t: i64)
    requires
        time_sorted(e),
    ensures
        e.filter(due_by::<T>(t)) + e.filter(due_after::<T>(t)) == e,
{
    lemma_split_index(e, t);
    let p = split_index(e, t);
    crate::table::lemma_filter_prefix(e, p, due_by::<T>(t));
    crate::table::lemma_filter_suffix(e, p, due_after::<T>(t));
    assert(e.take(p) + e.skip(p) =~= e);
}

/// Filtering keeps every element of a sequence that has no element named
/// `id`.
proof fn lemma_none_named<H: ?Sized>(e: Seq<(i64, SkedgyTask<H>)>, id: Seq<char>)
    requires
        forall|i: int| 0 <= i < e.len() ==> (#[trigger] e[i]).1.id@ != id,
    ensures
        e.filter(not_named::<H>(id)) == e,
{
    crate::ordering::lemma_filter_all(e, not_named::<H>(id));
}

/// A filter of a sequence without an entry named `id` has none either.
proof fn lemma_filter_unnamed<H: ?Sized>(e: Seq<(i64, SkedgyTask<H>)>, pred: spec_fn((i64, SkedgyTask<H>)) -> bool, id: Seq<char>)
    requires
        forall|i: int| 0 <= i < e.len() ==> (#[trigger] e[i]).1.id@ != id,
    ensures
        forall|i: int| 0 <= i < e.filter(pred).len() ==> (#[trigger] e.filter(pred)[i]).1.id@ != id,
{
    let f = e.filter(pred);
    assert forall|i: int| 0 <= i < f.len() implies (#[trigger] f[i]).1.id@ != id by {
        assert(f.contains(f[i]));
        e.lemma_filter_contains_rev(pred, f[i]);
    }
}

/// Inserting an entry and then filtering out its name, where no entry had
/// that name, gives back the ordered sequence.
proof fn lemma_insert_then_filter<H: ?Sized>(e: Seq<(i64, SkedgyTask<H>)>, t: i64, task: SkedgyTask<H>)
    requires
        time_sorted(e),
        forall|i: int| 0 <= i < e.len() ==> (#[trigger] e[i]).1.id@ != task.id@,
    ensures
        insert_at_time(e, t, task).filter(not_named::<H>(task.id@)) == e,
{
    let id = task.id@;
    let pe = not_named::<H>(id);
    let a = e.filter(due_by::<SkedgyTask<H>>(t));
    let b = e.filter(due_after::<SkedgyTask<H>>(t));
    let x = seq![(t, task)];
    lemma_filter_unnamed(e, due_by::<SkedgyTask<H>>(t), id);
    lemma_filter_unnamed(e, due_after::<SkedgyTask<H>>(t), id);
    lemma_none_named(a, id);
    lemma_none_named(b, id);
    assert(!pe(x[0]));
    crate::ordering::lemma_filter_none(x, pe);
    Seq::filter_distributes_over_add(a + x, b, pe);
    Seq::filter_distributes_over_add(a, x, pe);
    lemma_split_at_time(e, t);
    assert(a + Seq::<(i64, SkedgyTask<H>)>::empty() + b =~= a + b);
}

/// Adding a task and then removing its identifier, where no task had that
/// identifier before, leaves the tasks as they were (a one-time task's
/// due time stays among the due times).
pub proof fn lemma_add_then_remove<H: ?Sized>(s: SchedulerState<H>, task: SkedgyTask<H>, now: i64)
    requires
        time_sorted(s.entries),
        command_in_range(SkedgyCommand::Add(task), now),
        forall|i: int| 0 <= i < s.entries.len() ==> (#[trigger] s.entries[i]).1.id@ != task.id@,
        forall|i: int| 0 <= i < s.crons.len() ==> (#[trigger] s.crons[i]).1.id@ != task.id@,
    ensures
        ({
            let r = apply_command(apply_command(s, SkedgyCommand::Add(task), now), SkedgyCommand::Remove(task.id), now);
            &&& r.entries == s.entries
            &&& r.crons == s.crons
            &&& r.last_cron_run == s.last_cron_run
        }),
{
    let id = task.id@;
    let m = apply_command(s, SkedgyCommand::Add(task), now);
    let r = apply_command(m, SkedgyCommand::Remove(task.id), now);
    assert(r.entries == m.entries.filter(not_named::<H>(id)));
    assert(r.crons == m.crons.filter(cron_not_named::<H>(id)));
    match task.kind {
        TaskKind::At(t) => {
            assert(m.entries == insert_at_time(s.entries, t, task));
            assert(m.crons == s.crons);
            lemma_insert_then_filter(s.entries, t, task);
            lemma_crons_unnamed(s.crons, id);
        },
        TaskKind::In(d) => {
            let t = (now + d) as i64;
            assert(m.entries == insert_at_time(s.entries, t, task));
            assert(m.crons == s.crons);
            lemma_insert_then_filter(s.entries, t, task);
            lemma_crons_unnamed(s.crons, id);
        },
        TaskKind::Cron(c) => {
            assert(m.crons == s.crons.push((c, task)));
            assert(m.entries == s.entries);
            lemma_push_then_filter(s.crons, c, task);
            lemma_none_named(s.entries, id);
        },
    }
}

/// Filtering out a name no cron task has keeps the cron tasks.
proof fn lemma_crons_unnamed<H: ?Sized>(crons: Seq<(CronSchedule, SkedgyTask<H>)>, id: Seq<char>)
    requires
        forall|i: int| 0 <= i < crons.len() ==> (#[trigger] crons[i]).1.id@ != id,
    ensures
        crons.filter(cron_not_named::<H>(id)) == crons,
{
    crate::ordering::lemma_filter_all(crons, cron_not_named::<H>(id));
}

/// Adding a cron task and then filtering out its name, where no cron task
/// had it, gives back the cron tasks.
proof fn lemma_push_then_filter<H: ?Sized>(crons: Seq<(CronSchedule, SkedgyTask<H>)>, c: CronSchedule, task: SkedgyTask<H>)
    requires
        forall|i: int| 0 <= i < crons.len() ==> (#[trigger] crons[i]).1.id@ != task.id@,
    ensures
        crons.push((c, task)).filter(cron_not_named::<H>(task.id@)) == crons,
{
    crons.lemma_filter_push((c, task), cron_not_named::<H>(task.id@));
    lemma_crons_unnamed(crons, task.id@);
}

/// Two strictly increasing sequences that hold the same values are equal.
pub proof fn lemma_increasing_unique(a: Seq<i64>, b: Seq<i64>)
    requires
        strictly_increasing(a),
        strictly_increasing(b),
        forall|x: i64| a.contains(x) <==> b.contains(x),
    ensures
        a == b,
    decreases a.len() + b.len(),
{
    if a.len() == 0 {
        if b.len() > 0 {
            assert(b.contains(b[0]));
        }
        assert(a =~= b);
    } else if b.len() == 0 {
        assert(a.contains(a[0]));
    } else {
        let la = a.last();
        let lb = b.last();
        assert(a.contains(la));
        assert(b.contains(lb));
        let ia = choose|i: int| 0 <= i < a.len() && a[i] == lb;
        let ib = choose|i: int| 0 <= i < b.len() && b[i] == la;
        if ia < a.len() - 1 {
            assert(a[ia] < a[a.len() - 1]);
        }
        if ib < b.len() - 1 {
            assert(b[ib] < b[b.len() - 1]);
        }
        assert(la == lb);
        let da = a.drop_last();
        let db = b.drop_last();
        assert forall|x: i64| da.contains(x) <==> db.contains(x) by {
            if da.contains(x) {
                let i = choose|i: int| 0 <= i < da.len() && da[i] == x;
                assert(a[i] < a[a.len() - 1]);
                assert(a.contains(x));
                let k = choose|k: int| 0 <= k < b.len() && b[k] == x;
                assert(k != b.len() - 1);
                assert(db[k] == x);
            }
            if db.contains(x) {
                let i = choose|i: int| 0 <= i < db.len() && db[i] == x;
                assert(b[i] < b[b.len() - 1]);
                assert(b.contains(x));
                let k = choose|k: int| 0 <= k < a.len() && a[k] == x;
                assert(k != a.len() - 1);
                assert(da[k] == x);
            }
        }
        assert forall|i: int, j: int| 0 <= i < j < da.len() implies da[i] < da[j] by {
            assert(a[i] < a[j]);
        }
        assert forall|i: int, j: int| 0 <= i < j < db.len() implies db[i] < db[j] by {
            assert(b[i] < b[j]);
        }
        lemma_increasing_unique(da, db);
        assert(a =~= da.push(la));
        assert(b =~= db.push(lb));
    }
}

/// The tasks of a sequence of entries.
pub open spec fn tasks_of<H: ?Sized>(entries: Seq<(i64, SkedgyTask<H>)>) -> Seq<SkedgyTask<H>> {
    entries.map_values(|e: (i64, SkedgyTask<H>)| e.1)
}

/// The tasks of a sequence of cron entries.
pub open spec fn cron_tasks_of<H: ?Sized>(crons: Seq<(CronSchedule, SkedgyTask<H>)>) -> Seq<SkedgyTask<H>> {
    crons.map_values(|c: (CronSchedule, SkedgyTask<H>)| c.1)
}

/// Each one-time entry's task is due at the entry's time.
pub open spec fn entries_plain<H: ?Sized>(entries: Seq<(i64, SkedgyTask<H>)>) -> bool {
    forall|i: int| 0 <= i < entries.len() ==> (#[trigger] entries[i]).1.kind == TaskKind::At(entries[i].0)
}

/// Each cron entry's task runs on the entry's schedule.
pub open spec fn crons_plain<H: ?Sized>(crons: Seq<(CronSchedule, SkedgyTask<H>)>) -> bool {
    forall|i: int| 0 <= i < crons.len() ==> (#[trigger] crons[i]).1.kind == TaskKind::Cron(crons[i].0)
}

/// `filter_map` of a concatenation is the concatenation of the `filter_map`s.
pub proof fn lemma_filter_map_add<A, B>(a: Seq<A>, b: Seq<A>, f: spec_fn(A) -> Option<B>)
    ensures
        (a + b).filter_map(f) == a.filter_map(f) + b.filter_map(f),
    decreases b.len(),
{
    if b.len() == 0 {
        assert(a + b =~= a);
        assert(a.filter_map(f) + b.filter_map(f) =~= a.filter_map(f));
    } else {
        lemma_filter_map_add(a, b.drop_last(), f);
        assert((a + b).drop_last() =~= a + b.drop_last());
        assert((a + b).last() == b.last());
        match f(b.last()) {
            Some(x) => {
                assert(a.filter_map(f) + b.filter_map(f) =~= a.filter_map(f) + b.drop_last().filter_map(f) + seq![x]);
            },
            None => {},
        }
    }
}

/// The cron tasks of plain cron entries give back the entries.
proof fn lemma_cron_tasks_back<H: ?Sized>(crons: Seq<(CronSchedule, SkedgyTask<H>)>)
    requires
        crons_plain(crons),
    ensures
        cron_tasks_of(crons).filter_map(cron_entry_of::<H>()) == crons,
    decreases crons.len(),
{
    if crons.len() > 0 {
        let d = crons.drop_last();
        assert(crons_plain(d)) by {
            assert forall|i: int| 0 <= i < d.len() implies (#[trigger] d[i]).1.kind == TaskKind::Cron(d[i].0) by {
                assert(d[i] == crons[i]);
            }
        }
        lemma_cron_tasks_back(d);
        assert(cron_tasks_of(crons).drop_last() =~= cron_tasks_of(d));
        let l = crons[crons.len() - 1];
        assert(cron_tasks_of(crons).last() == l.1);
        assert(l.1.kind == TaskKind::Cron(l.0));
        assert(cron_entry_of::<H>()(l.1) == Some((l.0, l.1)));
        assert(crons =~= d + seq![l]);
    }
}

/// One-time tasks due at a point in time hold no cron entry.
proof fn lemma_plain_no_cron<H: ?Sized>(entries: Seq<(i64, SkedgyTask<H>)>)
    requires
        forall|i: int| 0 <= i < entries.len() ==> !((#[trigger] entries[i]).1.kind is Cron),
    ensures
        tasks_of(entries).filter_map(cron_entry_of::<H>()) == Seq::<(CronSchedule, SkedgyTask<H>)>::empty(),
    decreases entries.len(),
{
    if entries.len() > 0 {
        let d = entries.drop_last();
        assert forall|i: int| 0 <= i < d.len() implies !((#[trigger] d[i]).1.kind is Cron) by {
            assert(d[i] == entries[i]);
        }
        lemma_plain_no_cron(d);
        assert(tasks_of(entries).drop_last() =~= tasks_of(d));
        assert(!(entries[entries.len() - 1].1.kind is Cron));
    }
}

/// Cron tasks add nothing to the one-time entries or their due times.
proof fn lemma_crons_add_no_entries<H: ?Sized>(c: Seq<SkedgyTask<H>>, e: Seq<SkedgyTask<H>>)
    requires
        forall|i: int| 0 <= i < c.len() ==> !((#[trigger] c[i]).kind is At),
    ensures
        at_entries(c + e) == at_entries(e),
        at_times(c + e) == at_times(e),
    decreases c.len() + e.len(),
{
    if e.len() == 0 {
        assert(c + e =~= c);
        if c.len() > 0 {
            let d = c.drop_last();
            lemma_crons_add_no_entries(d, e);
            assert(d + e =~= d);
            assert(!(c[c.len() - 1].kind is At));
        }
    } else {
        lemma_crons_add_no_entries(c, e.drop_last());
        assert((c + e).drop_last() =~= c + e.drop_last());
        assert((c + e).last() == e.last());
    }
}

/// The one-time entries of ordered plain entries give back the entries.
#[verifier::spinoff_prover]
#[verifier::rlimit(50)]
proof fn lemma_entries_back<H: ?Sized>(entries: Seq<(i64, SkedgyTask<H>)>)
    requires
        entries_plain(entries),
        time_sorted(entries),
    ensures
        at_entries(tasks_of(entries)) == entries,
    decreases entries.len(),
{
    if entries.len() > 0 {
        let d = entries.drop_last();
        let l = entries[entries.len() - 1];
        assert(entries_plain(d)) by {
            assert forall|i: int| 0 <= i < d.len() implies (#[trigger] d[i]).1.kind == TaskKind::At(d[i].0) by {
                assert(d[i] == entries[i]);
            }
        }
        assert(time_sorted(d)) by {
            assert forall|i: int, j: int| 0 <= i < j < d.len() implies d[i].0 <= d[j].0 by {
                assert(d[i] == entries[i] && d[j] == entries[j]);
            }
        }
        lemma_entries_back(d);
        assert(tasks_of(entries).drop_last() =~= tasks_of(d));
        assert(tasks_of(entries).last() == l.1);
        assert(l.1.kind == TaskKind::At(l.0));
        assert forall|j: int| 0 <= j < d.len() implies (due_by::<SkedgyTask<H>>(l.0))(d[j]) by {
            assert(d[j] == entries[j]);
        }
        crate::ordering::lemma_filter_all(d, due_by::<SkedgyTask<H>>(l.0));
        crate::ordering::lemma_filter_none(d, due_after::<SkedgyTask<H>>(l.0));
        assert(insert_at_time(d, l.0, l.1) =~= entries);
    }
}

/// The due times of ordered plain entries strictly increase and are
/// exactly the entries' times.
#[verifier::spinoff_prover]
#[verifier::rlimit(50)]
proof fn lemma_times_back<H: ?Sized>(entries: Seq<(i64, SkedgyTask<H>)>)
    requires
        entries_plain(entries),
        time_sorted(entries),
    ensures
        strictly_increasing(at_times(tasks_of(entries))),
        forall|x: i64| at_times(tasks_of(entries)).contains(x) <==> exists|i: int| 0 <= i < entries.len() && (#[trigger] entries[i]).0 == x,
    decreases entries.len(),
{
    if entries.len() > 0 {
        let d = entries.drop_last();
        let l = entries[entries.len() - 1];
        let t = l.0;
        assert(entries_plain(d)) by {
            assert forall|i: int| 0 <= i < d.len() implies (#[trigger] d[i]).1.kind == TaskKind::At(d[i].0) by {
                assert(d[i] == entries[i]);
            }
        }
        assert(time_sorted(d)) by {
            assert forall|i: int, j: int| 0 <= i < j < d.len() implies d[i].0 <= d[j].0 by {
                assert(d[i] == entries[i] && d[j] == entries[j]);
            }
        }
        lemma_times_back(d);
        assert(tasks_of(entries).drop_last() =~= tasks_of(d));
        assert(tasks_of(entries).last() == l.1);
        assert(l.1.kind == TaskKind::At(t));
        let r = at_times(tasks_of(d));
        assert(at_times(tasks_of(entries)) == insert_time(r, t));
        // every time in `r` is at most `t`
        assert forall|j: int| 0 <= j < r.len() implies r[j] <= t by {
            assert(r.contains(r[j]));
            let i = choose|i: int| 0 <= i < d.len() && (#[trigger] d[i]).0 == r[j];
            assert(d[i] == entries[i]);
        }
        let p: int = if r.len() > 0 && r.last() == t { r.len() - 1 } else { r.len() as int };
        assert forall|j: int| 0 <= j < p implies (earlier_than(t))(r[j]) by {
            if r.len() > 0 && r.last() == t {
                assert(r[j] < r[r.len() - 1]);
            } else if r[j] == t {
                if j < r.len() - 1 {
                    assert(r[j] < r[r.len() - 1]);
                }
            }
        }
        assert forall|j: int| p <= j < r.len() implies !(earlier_than(t))(r[j]) by {}
        crate::table::lemma_filter_prefix(r, p, earlier_than(t));
        crate::ordering::lemma_filter_none(r, later_than(t));
        let n = insert_time(r, t);
        assert(n =~= r.take(p).push(t));
        assert forall|i: int, j: int| 0 <= i < j < n.len() implies n[i] < n[j] by {
            if j < p {
                assert(r[i] < r[j]);
            }
        }
        assert forall|x: i64| n.contains(x) <==> exists|i: int| 0 <= i < entries.len() && (#[trigger] entries[i]).0 == x by {
            if n.contains(x) {
                let k = choose|k: int| 0 <= k < n.len() && n[k] == x;
                if k == p {
                    assert(entries[entries.len() - 1].0 == x);
                } else {
                    assert(r.contains(r[k]));
                    let i = choose|i: int| 0 <= i < d.len() && (#[trigger] d[i]).0 == r[k];
                    assert(entries[i] == d[i]);
                }
            }
            if exists|i: int| 0 <= i < entries.len() && (#[trigger] entries[i]).0 == x {
                let i = choose|i: int| 0 <= i < entries.len() && (#[trigger] entries[i]).0 == x;
                if i == entries.len() - 1 || x == t {
                    assert(n[p] == x);
                } else {
                    assert(d[i] == entries[i]);
                    assert(r.contains(x));
                    let k = choose|k: int| 0 <= k < r.len() && r[k] == x;
                    assert(k < p);
                    assert(n[k] == x);
                }
            }
        }
    }
}

/// The cron half of a snapshot: snapshot cron entries whose tasks run on
/// their schedules, together with one-time entries holding no cron task,
/// and the cron entries read back are the same, in the same order.
pub proof fn lemma_snapshot_crons<H: ?Sized>(crons: Seq<(CronSchedule, SkedgyTask<H>)>, entries: Seq<(i64, SkedgyTask<H>)>)
    requires
        crons_plain(crons),
        forall|i: int| 0 <= i < entries.len() ==> !((#[trigger] entries[i]).1.kind is Cron),
    ensures
        (cron_tasks_of(crons) + tasks_of(entries)).filter_map(cron_entry_of::<H>()) == crons,
{
    let f = cron_entry_of::<H>();
    lemma_filter_map_add(cron_tasks_of(crons), tasks_of(entries), f);
    lemma_cron_tasks_back(crons);
    lemma_plain_no_cron(entries);
    assert(crons + Seq::<(CronSchedule, SkedgyTask<H>)>::empty() =~= crons);
}

/// The one-time half of a snapshot: snapshot a well-formed table whose
/// tasks are each due at their entry's time and whose due times each hold
/// a task, together with cron entries holding no task due at a point in
/// time, and the table read back has the same entries in the same order
/// and the same due times.
pub proof fn lemma_snapshot_schedules<H: ?Sized>(s: SchedulerState<H>)
    requires
        state_wf(s),
        entries_plain(s.entries),
        forall|i: int| 0 <= i < s.crons.len() ==> !((#[trigger] s.crons[i]).1.kind is At),
        forall|j: int| #![trigger s.times[j]] 0 <= j < s.times.len() ==> exists|i: int| 0 <= i < s.entries.len() && (#[trigger] s.entries[i]).0 == s.times[j],
    ensures
        at_entries(snapshot(s)) == s.entries,
        at_times(snapshot(s)) == s.times,
{
    let c = cron_tasks_of(s.crons);
    let e = tasks_of(s.entries);
    assert(snapshot(s) == c + e);
    assert forall|i: int| 0 <= i < c.len() implies !((#[trigger] c[i]).kind is At) by {
        assert(c[i] == s.crons[i].1);
    }
    lemma_crons_add_no_entries(c, e);
    lemma_entries_back(s.entries);
    lemma_times_back(s.entries);
    let t = at_times(e);
    assert forall|x: i64| t.contains(x) <==> s.times.contains(x) by {
        if t.contains(x) {
            let i = choose|i: int| 0 <= i < s.entries.len() && (#[trigger] s.entries[i]).0 == x;
            assert(s.times.contains(s.entries[i].0));
        }
        if s.times.contains(x) {
            let j = choose|j: int| 0 <= j < s.times.len() && s.times[j] == x;
            let i = choose|i: int| 0 <= i < s.entries.len() && (#[trigger] s.entries[i]).0 == s.times[j];
            assert(s.entries[i].0 == x);
        }
    }
    lemma_increasing_unique(t, s.times);
}

/// A snapshot loaded back gives the same tasks and due times, where each
/// one-time task is due at a point in time (not by a delay) matching its
/// entry, each cron task runs on its entry's schedule, and every due time
/// has a task.
pub proof fn lemma_snapshot_round_trip<H: ?Sized>(s: SchedulerState<H>)
    requires
        state_wf(s),
        entries_plain(s.entries),
        crons_plain(s.crons),
        forall|j: int| #![trigger s.times[j]] 0 <= j < s.times.len() ==> exists|i: int| 0 <= i < s.entries.len() && (#[trigger] s.entries[i]).0 == s.times[j],
    ensures
        loaded(s, snapshot(s)) == s,
{
    assert forall|i: int| 0 <= i < s.entries.len() implies !((#[trigger] s.entries[i]).1.kind is Cron) by {
        assert(s.entries[i].1.kind == TaskKind::At(s.entries[i].0));
    }
    assert forall|i: int| 0 <= i < s.crons.len() implies !((#[trigger] s.crons[i]).1.kind is At) by {
        assert(s.crons[i].1.kind == TaskKind::Cron(s.crons[i].0));
    }
    lemma_snapshot_crons(s.crons, s.entries);
    assert(snapshot(s) == cron_tasks_of(s.crons) + tasks_of(s.entries));
    lemma_snapshot_schedules(s);
    assert(loaded(s, snapshot(s)) =~= s);
}

/// The scheduler never wakes later than a waiting one-time task is due.
pub proof fn lemma_wakes_by_every_task<H: ?Sized>(s: SchedulerState<H>, now: i64)
    requires
        state_wf(s),
    ensures
        forall|i: int| 0 <= i < s.entries.len() ==> (next_wakeup(s, now) matches Some(w) && w <= (#[trigger] s.entries[i]).0),
{
    if s.entries.len() > 0 {
        assert(s.times.contains(s.entries[0].0));
        let w = next_wakeup(s, now);
        assert(w matches Some(x) && x <= s.times[0]);
        assert forall|i: int| 0 <= i < s.entries.len() implies (next_wakeup(s, now) matches Some(x) && x <= (#[trigger] s.entries[i]).0) by {
            assert(s.times.contains(s.entries[i].0));
            let j = choose|j: int| 0 <= j < s.times.len() && s.times[j] == s.entries[i].0;
            if j > 0 {
                assert(s.times[0] < s.times[j]);
            }
        }
    }
}

/// Each run of a cron task inside the window of a batch woken at `from`
/// is in that batch, paired with the task, when the batch looks up cron
/// runs.
pub proof fn lemma_cron_run_in_batch<H: ?Sized>(s: SchedulerState<H>, from: i64, i: int, k: int)
    requires
        looks_up_crons(s, from),
        0 <= i < s.crons.len(),
        0 <= k < cron_runs(s.crons[i].0@, (from - 1) as i64, window_end(s, from)).len(),
    ensures
        due_batch(s, from).contains((cron_runs(s.crons[i].0@, (from - 1) as i64, window_end(s, from))[k], s.crons[i].1)),
{
    let start = (from - 1) as i64;
    let end = window_end(s, from);
    lemma_in_cron_batch(s.crons, start, end, i, k);
    let cb = cron_batch(s.crons, start, end);
    let x = (cron_runs(s.crons[i].0@, start, end)[k], s.crons[i].1);
    let m = choose|m: int| 0 <= m < cb.len() && cb[m] == x;
    let f = s.entries.filter(due_before::<SkedgyTask<H>>(end));
    assert(due_batch(s, from)[f.len() + m] == x);
}

/// A run of a cron task in the window is in the cron batch.
proof fn lemma_in_cron_batch<H: ?Sized>(crons: Seq<(CronSchedule, SkedgyTask<H>)>, start: i64, end: i64, i: int, k: int)
    requires
        0 <= i < crons.len(),
        0 <= k < cron_runs(crons[i].0@, start, end).len(),
    ensures
        cron_batch(crons, start, end).contains((cron_runs(crons[i].0@, start, end)[k], crons[i].1)),
    decreases crons.len(),
{
    let d = crons.drop_last();
    let a = cron_batch(d, start, end);
    let c = crons.last();
    let x = (cron_runs(crons[i].0@, start, end)[k], crons[i].1);
    if i == crons.len() - 1 {
        assert(crons[i] == c);
        assert(cron_batch(crons, start, end)[a.len() + k] == x);
    } else {
        assert(d[i] == crons[i]);
        lemma_in_cron_batch(d, start, end, i, k);
        let m = choose|m: int| 0 <= m < a.len() && a[m] == x;
        assert(cron_batch(crons, start, end)[m] == x);
    }
}

/// Taking the batch woken at `from` twice in a row hands out nothing the
/// second time: neither a one-time task nor a cron run.
pub proof fn lemma_repeat_batch_empty<H: ?Sized>(s: SchedulerState<H>, from: i64)
    requires
        i64::MIN < from,
        from + s.look_ahead <= i64::MAX,
    ensures
        due_batch(after_batch(s, from), from) == Seq::<(i64, SkedgyTask<H>)>::empty(),
{
    let r = after_batch(s, from);
    let end = window_end(s, from);
    assert(window_end(r, from) == end);
    lemma_batch_not_repeated(s, from);
    assert forall|i: int| 0 <= i < r.entries.len() implies !(due_before::<SkedgyTask<H>>(end))(r.entries[i]) by {
        assert(r.entries[i].0 >= end);
    }
    crate::ordering::lemma_filter_none(r.entries, due_before::<SkedgyTask<H>>(end));
    assert(window_crons(r, from).len() == 0) by {
        if window_crons(s, from).len() == 0 {
            assert(r.last_cron_run == s.last_cron_run);
            assert(r.crons == s.crons);
        }
    }
    assert(due_batch(r, from) =~= Seq::<(i64, SkedgyTask<H>)>::empty());
}

/// A batch woken at `from` holds only what is due before the end of its
/// window: nothing is handed out more than the look-ahead ahead of its time.
pub proof fn lemma_batch_not_early<H: ?Sized>(s: SchedulerState<H>, from: i64)
    requires
        i64::MIN < from,
        from + s.look_ahead <= i64::MAX,
    ensures
        forall|i: int| 0 <= i < due_batch(s, from).len() ==> (#[trigger] due_batch(s, from)[i]).0 < from + s.look_ahead,
{
    let end = window_end(s, from);
    let f = s.entries.filter(due_before::<SkedgyTask<H>>(end));
    lemma_cron_batch_inside(s.crons, (from - 1) as i64, end);
    assert forall|i: int| 0 <= i < due_batch(s, from).len() implies (#[trigger] due_batch(s, from)[i]).0 < from + s.look_ahead by {
        if i < f.len() {
            s.entries.lemma_filter_pred(due_before::<SkedgyTask<H>>(end), i);
            assert(due_batch(s, from)[i] == f[i]);
        } else {
            assert(due_batch(s, from)[i] == window_crons(s, from)[i - f.len()]);
        }
    }
}

/// A one-time task handed out in a batch is not handed out again by a later
/// batch, where no command came in between: every one-time entry of the
/// later batch is due at or after the first window's end, every one of the
/// first batch before it.
pub proof fn lemma_one_time_handed_out_once<H: ?Sized>(s: SchedulerState<H>, from1: i64, from2: i64)
    requires
        i64::MIN < from1,
        from1 + s.look_ahead <= i64::MAX,
    ensures
        ({
            let first = s.entries.filter(due_before::<SkedgyTask<H>>(window_end(s, from1)));
            let r = after_batch(s, from1);
            let second = r.entries.filter(due_before::<SkedgyTask<H>>(window_end(r, from2)));
            forall|x: (i64, SkedgyTask<H>)| first.contains(x) ==> !second.contains(x)
        }),
{
    let end = window_end(s, from1);
    let first = s.entries.filter(due_before::<SkedgyTask<H>>(end));
    let r = after_batch(s, from1);
    let second = r.entries.filter(due_before::<SkedgyTask<H>>(window_end(r, from2)));
    lemma_batch_not_repeated(s, from1);
    assert forall|x: (i64, SkedgyTask<H>)| first.contains(x) implies !second.contains(x) by {
        let k = choose|k: int| 0 <= k < first.len() && first[k] == x;
        s.entries.lemma_filter_pred(due_before::<SkedgyTask<H>>(end), k);
        if second.contains(x) {
            r.entries.lemma_filter_contains_rev(due_before::<SkedgyTask<H>>(window_end(r, from2)), x);
            let m = choose|m: int| 0 <= m < r.entries.len() && r.entries[m] == x;
            assert(r.entries[m].0 >= end);
        }
    }
}

/// The state after the batches woken at each of `froms` in turn, with no
/// command handled in between.
pub open spec fn after_batches<H: ?Sized>(s: SchedulerState<H>, froms: Seq<i64>) -> SchedulerState<H>
    decreases froms.len(),
{
    if froms.len() == 0 {
        s
    } else {
        after_batch(after_batches(s, froms.drop_last()), froms.last())
    }
}

/// The one-time tasks that the batch woken at `from` hands out.
pub open spec fn one_time_batch<H: ?Sized>(s: SchedulerState<H>, from: i64) -> Seq<(i64, SkedgyTask<H>)> {
    s.entries.filter(due_before::<SkedgyTask<H>>(window_end(s, from)))
}

/// Each wake time leaves the end of its window a representable time.
pub open spec fn wake_times_in_range(look_ahead: u64, froms: Seq<i64>) -> bool {
    forall|k: int| 0 <= k < froms.len() ==> i64::MIN < #[trigger] froms[k] && froms[k] + look_ahead <= i64::MAX
}

/// Taking batches keeps the look-ahead, and every one-time entry left after
/// `m` batches was already there after `n <= m` batches.
proof fn lemma_after_batches_shrink<H: ?Sized>(s: SchedulerState<H>, froms: Seq<i64>, n: int, m: int)
    requires
        0 <= n <= m <= froms.len(),
    ensures
        after_batches(s, froms.take(m)).look_ahead == s.look_ahead,
        forall|x: (i64, SkedgyTask<H>)| after_batches(s, froms.take(m)).entries.contains(x)
            ==> after_batches(s, froms.take(n)).entries.contains(x),
    decreases m - n,
{
    if n == m {
        lemma_after_batches_look_ahead(s, froms.take(m));
    } else {
        lemma_after_batches_shrink(s, froms, n, m - 1);
        let prev = after_batches(s, froms.take(m - 1));
        assert(froms.take(m).drop_last() =~= froms.take(m - 1));
        let p = due_from::<SkedgyTask<H>>(window_end(prev, froms.take(m).last()));
        assert forall|x: (i64, SkedgyTask<H>)| after_batches(s, froms.take(m)).entries.contains(x)
            implies prev.entries.contains(x) by {
            prev.entries.lemma_filter_contains_rev(p, x);
        }
    }
}

/// Taking batches keeps the look-ahead.
proof fn lemma_after_batches_look_ahead<H: ?Sized>(s: SchedulerState<H>, froms: Seq<i64>)
    ensures
        after_batches(s, froms).look_ahead == s.look_ahead,
    decreases froms.len(),
{
    if froms.len() > 0 {
        lemma_after_batches_look_ahead(s, froms.drop_last());
    }
}

/// Over any run of batches with no command handled in between, a one-time
/// task handed out by one batch is handed out by no other: every one-time
/// entry of a later batch is due at or after the end of each earlier
/// batch's window, and every one-time entry of that earlier batch before it.
pub proof fn lemma_one_time_once_over_run<H: ?Sized>(s: SchedulerState<H>, froms: Seq<i64>, i: int, j: int)
    requires
        wake_times_in_range(s.look_ahead, froms),
        0 <= i < j < froms.len(),
    ensures
        forall|x: (i64, SkedgyTask<H>)|
            one_time_batch(after_batches(s, froms.take(i)), froms[i]).contains(x)
                ==> !one_time_batch(after_batches(s, froms.take(j)), froms[j]).contains(x),
{
    let si = after_batches(s, froms.take(i));
    let sj = after_batches(s, froms.take(j));
    lemma_after_batches_look_ahead(s, froms.take(i));
    assert(i64::MIN < froms[i] && froms[i] + s.look_ahead <= i64::MAX);
    let end = window_end(si, froms[i]);
    assert(froms.take(i + 1).drop_last() =~= froms.take(i));
    assert(froms.take(i + 1).last() == froms[i]);
    assert(after_batches(s, froms.take(i + 1)) == after_batch(si, froms[i]));
    lemma_after_batches_shrink(s, froms, i + 1, j);
    let first = one_time_batch(si, froms[i]);
    let second = one_time_batch(sj, froms[j]);
    assert forall|x: (i64, SkedgyTask<H>)| first.contains(x) implies !second.contains(x) by {
        let k = choose|k: int| 0 <= k < first.len() && first[k] == x;
        si.entries.lemma_filter_pred(due_before::<SkedgyTask<H>>(end), k);
        if second.contains(x) {
            sj.entries.lemma_filter_contains_rev(due_before::<SkedgyTask<H>>(window_end(sj, froms[j])), x);
            let after = after_batch(si, froms[i]).entries;
            assert(after.contains(x));
            let m = choose|m: int| 0 <= m < after.len() && after[m] == x;
            si.entries.lemma_filter_pred(due_from::<SkedgyTask<H>>(end), m);
        }
    }
}

/// One step of the scheduler's loop: the commands handled at a clock
/// reading, or the batch taken at a wake time.
pub ghost enum LoopStep<H: ?Sized> {
    Commands(Seq<SkedgyCommand<H>>, i64),
    Batch(i64),
}

/// The state after one step of the loop.
pub open spec fn after_step<H: ?Sized>(s: SchedulerState<H>, step: LoopStep<H>) -> SchedulerState<H> {
    match step {
        LoopStep::Commands(cs, now) => apply_commands(s, cs, now),
        LoopStep::Batch(from) => after_batch(s, from),
    }
}

/// The state after the steps of the loop, in order.
pub open spec fn after_steps<H: ?Sized>(s: SchedulerState<H>, steps: Seq<LoopStep<H>>) -> SchedulerState<H>
    decreases steps.len(),
{
    if steps.len() == 0 {
        s
    } else {
        after_step(after_steps(s, steps.drop_last()), steps.last())
    }
}

/// The command schedules `task`, as an addition or an update.
pub open spec fn schedules_task<H: ?Sized>(c: SkedgyCommand<H>, task: SkedgyTask<H>) -> bool {
    match c {
        SkedgyCommand::Add(t) => t == task,
        SkedgyCommand::Update(t) => t == task,
        SkedgyCommand::Remove(_) => false,
    }
}

/// The step handles a command that schedules `task`.
pub open spec fn step_schedules<H: ?Sized>(step: LoopStep<H>, task: SkedgyTask<H>) -> bool {
    match step {
        LoopStep::Commands(cs, _) => exists|m: int| 0 <= m < cs.len() && schedules_task(#[trigger] cs[m], task),
        LoopStep::Batch(_) => false,
    }
}

/// Each batch of the loop leaves the end of its window a representable time.
pub open spec fn batches_in_range<H: ?Sized>(look_ahead: u64, steps: Seq<LoopStep<H>>) -> bool {
    forall|k: int| 0 <= k < steps.len() ==> ((#[trigger] steps[k]) matches LoopStep::Batch(from)
        ==> i64::MIN < from && from + look_ahead <= i64::MAX)
}

/// Handling commands keeps the look-ahead.
proof fn lemma_commands_keep_look_ahead<H: ?Sized>(s: SchedulerState<H>, cs: Seq<SkedgyCommand<H>>, now: i64)
    ensures
        apply_commands(s, cs, now).look_ahead == s.look_ahead,
    decreases cs.len(),
{
    if cs.len() > 0 {
        lemma_commands_keep_look_ahead(s, cs.drop_last(), now);
    }
}

/// The loop keeps the look-ahead.
proof fn lemma_steps_keep_look_ahead<H: ?Sized>(s: SchedulerState<H>, steps: Seq<LoopStep<H>>)
    ensures
        after_steps(s, steps).look_ahead == s.look_ahead,
    decreases steps.len(),
{
    if steps.len() > 0 {
        let r = after_steps(s, steps.drop_last());
        lemma_steps_keep_look_ahead(s, steps.drop_last());
        if let LoopStep::Commands(cs, now) = steps.last() {
            lemma_commands_keep_look_ahead(r, cs, now);
        }
    }
}

/// Handling commands brings in no one-time entry of `task` unless one of
/// them schedules `task`.
proof fn lemma_commands_bring_in<H: ?Sized>(s: SchedulerState<H>, cs: Seq<SkedgyCommand<H>>, now: i64, x: (i64, SkedgyTask<H>))
    requires
        !s.entries.contains(x),
        forall|m: int| 0 <= m < cs.len() ==> !schedules_task(#[trigger] cs[m], x.1),
    ensures
        !apply_commands(s, cs, now).entries.contains(x),
    decreases cs.len(),
{
    if cs.len() > 0 {
        let d = cs.drop_last();
        assert forall|m: int| 0 <= m < d.len() implies !schedules_task(#[trigger] d[m], x.1) by {
            assert(d[m] == cs[m]);
        }
        lemma_commands_bring_in(s, d, now, x);
        let r = apply_commands(s, d, now);
        let c = cs.last();
        assert(!schedules_task(cs[cs.len() - 1], x.1));
        let base = match c {
            SkedgyCommand::Update(task) => without_named(r, task.id@),
            _ => r,
        };
        if base.entries.contains(x) {
            match c {
                SkedgyCommand::Update(task) => {
                    r.entries.lemma_filter_contains_rev(not_named::<H>(task.id@), x);
                },
                _ => {},
            }
        }
        assert(!base.entries.contains(x));
        match c {
            SkedgyCommand::Add(task) => lemma_schedule_brings_in(base, task, now, x),
            SkedgyCommand::Update(task) => lemma_schedule_brings_in(base, task, now, x),
            SkedgyCommand::Remove(id) => {
                if apply_command(r, c, now).entries.contains(x) {
                    r.entries.lemma_filter_contains_rev(not_named::<H>(id@), x);
                }
            },
        }
    }
}

/// Scheduling a task other than `x`'s brings in no entry `x`.
proof fn lemma_schedule_brings_in<H: ?Sized>(s: SchedulerState<H>, task: SkedgyTask<H>, now: i64, x: (i64, SkedgyTask<H>))
    requires
        !s.entries.contains(x),
        task != x.1,
    ensures
        !schedule_task(s, task, now).entries.contains(x),
{
    let t = match task.kind {
        TaskKind::At(t) => t,
        TaskKind::In(d) => (now + d) as i64,
        TaskKind::Cron(_) => 0,
    };
    if !(task.kind is Cron) {
        let e = insert_at_time(s.entries, t, task);
        assert(schedule_task(s, task, now).entries == e);
        if e.contains(x) {
            let a = s.entries.filter(due_by::<SkedgyTask<H>>(t));
            let b = s.entries.filter(due_after::<SkedgyTask<H>>(t));
            let k = choose|k: int| 0 <= k < e.len() && e[k] == x;
            if k < a.len() {
                assert(a[k] == x);
                assert(a.contains(x));
                s.entries.lemma_filter_contains_rev(due_by::<SkedgyTask<H>>(t), x);
            } else if k > a.len() {
                assert(b[k - a.len() - 1] == x);
                assert(b.contains(x));
                s.entries.lemma_filter_contains_rev(due_after::<SkedgyTask<H>>(t), x);
            } else {
                assert(e[k] == (t, task));
            }
        }
    }
}

/// Over the scheduler's loop, with commands handled between the batches,
/// no batch hands out a task, cron run or one-time, more than the
/// look-ahead before it is due.
pub proof fn lemma_loop_never_early<H: ?Sized>(s: SchedulerState<H>, steps: Seq<LoopStep<H>>, k: int, from: i64)
    requires
        batches_in_range(s.look_ahead, steps),
        0 <= k < steps.len(),
        steps[k] == LoopStep::<H>::Batch(from),
    ensures
        forall|i: int| 0 <= i < due_batch(after_steps(s, steps.take(k)), from).len()
            ==> (#[trigger] due_batch(after_steps(s, steps.take(k)), from)[i]).0 < from + s.look_ahead,
{
    lemma_steps_keep_look_ahead(s, steps.take(k));
    assert(i64::MIN < from && from + s.look_ahead <= i64::MAX);
    lemma_batch_not_early(after_steps(s, steps.take(k)), from);
}

/// Over the scheduler's loop, with commands handled between the batches, a
/// one-time task handed out by one batch is handed out by a later batch
/// only where a command in between scheduled that task again.
pub proof fn lemma_loop_once_unless_scheduled_again<H: ?Sized>(
    s: SchedulerState<H>,
    steps: Seq<LoopStep<H>>,
    i: int,
    j: int,
    x: (i64, SkedgyTask<H>),
)
    requires
        batches_in_range(s.look_ahead, steps),
        0 <= i < j < steps.len(),
        steps[i] is Batch,
        steps[j] is Batch,
        one_time_batch(after_steps(s, steps.take(i)), steps[i]->Batch_0).contains(x),
        one_time_batch(after_steps(s, steps.take(j)), steps[j]->Batch_0).contains(x),
    ensures
        exists|k: int| i < k < j && step_schedules(#[trigger] steps[k], x.1),
{
    if !(exists|k: int| i < k < j && step_schedules(#[trigger] steps[k], x.1)) {
        let si = after_steps(s, steps.take(i));
        let f1 = steps[i]->Batch_0;
        lemma_steps_keep_look_ahead(s, steps.take(i));
        assert(i64::MIN < f1 && f1 + s.look_ahead <= i64::MAX);
        let end = window_end(si, f1);
        let first = one_time_batch(si, f1);
        let p = choose|p: int| 0 <= p < first.len() && first[p] == x;
        si.entries.lemma_filter_pred(due_before::<SkedgyTask<H>>(end), p);
        assert(steps.take(i + 1).drop_last() =~= steps.take(i));
        assert(after_steps(s, steps.take(i + 1)) == after_batch(si, f1));
        if after_batch(si, f1).entries.contains(x) {
            let after = after_batch(si, f1).entries;
            let m = choose|m: int| 0 <= m < after.len() && after[m] == x;
            si.entries.lemma_filter_pred(due_from::<SkedgyTask<H>>(end), m);
        }
        lemma_absent_through(s, steps, i + 1, j, x);
        let sj = after_steps(s, steps.take(j));
        sj.entries.lemma_filter_contains_rev(due_before::<SkedgyTask<H>>(window_end(sj, steps[j]->Batch_0)), x);
    }
}

/// An entry absent after `n` steps stays absent through step `m` where no
/// step in between schedules its task.
proof fn lemma_absent_through<H: ?Sized>(s: SchedulerState<H>, steps: Seq<LoopStep<H>>, n: int, m: int, x: (i64, SkedgyTask<H>))
    requires
        0 <= n <= m <= steps.len(),
        !after_steps(s, steps.take(n)).entries.contains(x),
        forall|k: int| n <= k < m ==> !step_schedules(#[trigger] steps[k], x.1),
    ensures
        !after_steps(s, steps.take(m)).entries.contains(x),
    decreases m - n,
{
    if n < m {
        lemma_absent_through(s, steps, n, m - 1, x);
        let r = after_steps(s, steps.take(m - 1));
        assert(steps.take(m).drop_last() =~= steps.take(m - 1));
        assert(steps.take(m).last() == steps[m - 1]);
        assert(!step_schedules(steps[m - 1], x.1));
        match steps[m - 1] {
            LoopStep::Commands(cs, now) => {
                assert forall|q: int| 0 <= q < cs.len() implies !schedules_task(#[trigger] cs[q], x.1) by {
                    assert(!(0 <= q < cs.len() && schedules_task(cs[q], x.1)));
                }
                lemma_commands_bring_in(r, cs, now, x);
            },
            LoopStep::Batch(from) => {
                if after_batch(r, from).entries.contains(x) {
                    r.entries.lemma_filter_contains_rev(due_from::<SkedgyTask<H>>(window_end(r, from)), x);
                }
            },
        }
    }
}

} // verus!
