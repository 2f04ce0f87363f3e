use vstd::prelude::*;

use crate::ordering::time_sorted;
use crate::task::SkedgyTask;

verus! {

/// Holds of an entry due at or before `t`.
pub open spec fn due_by<T>(t: i64) -> spec_fn((i64, T)) -> bool {
    |e: (i64, T)| e.0 <= t
}

/// Holds of an entry due after `t`.
pub open spec fn due_after<T>(t: i64) -> spec_fn((i64, T)) -> bool {
    |e: (i64, T)| e.0 > t
}

/// Holds of an entry due before `t`.
pub open spec fn due_before<T>(t: i64) -> spec_fn((i64, T)) -> bool {
    |e: (i64, T)| e.0 < t
}

/// Holds of an entry due at or after `t`.
pub open spec fn due_from<T>(t: i64) -> spec_fn((i64, T)) -> bool {
    |e: (i64, T)| e.0 >= t
}

/// Holds of an entry whose task is not named `id`.
pub open spec fn not_named<H: ?Sized>(id: Seq<char>) -> spec_fn((i64, SkedgyTask<H>)) -> bool {
    |e: (i64, SkedgyTask<H>)| e.1.id@ != id
}

/// `s` with `(t, x)` placed after every entry due at or before `t` and
/// before every entry due after it.
pub open spec fn insert_at_time<T>(s: Seq<(i64, T)>, t: i64, x: T) -> Seq<(i64, T)> {
    s.filter(due_by::<T>(t)) + seq![(t, x)] + s.filter(due_after::<T>(t))
}

/// Holds of a time before `t`.
pub open spec fn earlier_than(t: i64) -> spec_fn(i64) -> bool {
    |x: i64| x < t
}

/// Holds of a time after `t`.
pub open spec fn later_than(t: i64) -> spec_fn(i64) -> bool {
    |x: i64| x > t
}

/// Holds of a time at or after `t`.
pub open spec fn not_earlier_than(t: i64) -> spec_fn(i64) -> bool {
    |x: i64| x >= t
}

/// The set of times `times` (strictly increasing) with `t` added.
pub open spec fn insert_time(times: Seq<i64>, t: i64) -> Seq<i64> {
    times.filter(earlier_than(t)) + seq![t] + times.filter(later_than(t))
}

/// The times strictly increase.
pub open spec fn strictly_increasing(s: Seq<i64>) -> bool {
    forall|i: int, j: int| 0 <= i < j < s.len() ==> s[i] < s[j]
}

/// A filter that passes exactly the first `p` elements gives those elements.
pub proof fn lemma_filter_prefix<A>(s: Seq<A>, p: int, pred: spec_fn(A) -> bool)
    requires
        0 <= p <= s.len(),
        forall|j: int| 0 <= j < p ==> pred(s[j]),
        forall|j: int| p <= j < s.len() ==> !pred(s[j]),
    ensures
        s.filter(pred) == s.take(p),
{
    let a = s.take(p);
    let b = s.skip(p);
    assert(s =~= a + b);
    Seq::filter_distributes_over_add(a, b, pred);
    crate::ordering::lemma_filter_all(a, pred);
    assert forall|j: int| 0 <= j < b.len() implies !pred(b[j]) by {
        assert(b[j] == s[p + j]);
    }
    crate::ordering::lemma_filter_none(b, pred);
    assert(a + Seq::<A>::empty() =~= a);
}

/// A filter that passes exactly the elements from index `p` on gives them.
pub proof fn lemma_filter_suffix<A>(s: Seq<A>, p: int, pred: spec_fn(A) -> bool)
    requires
        0 <= p <= s.len(),
        forall|j: int| 0 <= j < p ==> !pred(s[j]),
        forall|j: int| p <= j < s.len() ==> pred(s[j]),
    ensures
        s.filter(pred) == s.skip(p),
{
    let a = s.take(p);
    let b = s.skip(p);
    assert(s =~= a + b);
    Seq::filter_distributes_over_add(a, b, pred);
    crate::ordering::lemma_filter_none(a, pred);
    assert forall|j: int| 0 <= j < b.len() implies pred(b[j]) by {
        assert(b[j] == s[p + j]);
    }
    crate::ordering::lemma_filter_all(b, pred);
    assert(Seq::<A>::empty() + b =~= b);
}

/// The number of times before `t`; they come first.
fn count_earlier(times: &Vec<i64>, t: i64) -> (q: usize)
    requires
        strictly_increasing(times@),
    ensures
        q <= times@.len(),
        forall|j: int| 0 <= j < q ==> times@[j] < t,
        forall|j: int| q <= j < times@.len() ==> times@[j] >= t,
{
    let mut q: usize = 0;
    while q < times.len() && times[q] < t
        invariant
            q <= times@.len(),
            forall|j: int| 0 <= j < q ==> times@[j] < t,
        decreases times@.len() - q,
    {
        q = q + 1;
    }
    proof {
        assert forall|j: int| q <= j < times@.len() implies times@[j] >= t by {
            if q < times@.len() && q < j {
                assert(times@[q as int] < times@[j]);
            }
        }
    }
    q
}

/// Adds `t` to the strictly increasing `times`, where it is missing.
fn add_time(times: &mut Vec<i64>, t: i64)
    requires
        strictly_increasing(old(times)@),
    ensures
        strictly_increasing(final(times)@),
        final(times)@ == insert_time(old(times)@, t),
{
    let ghost old_times = times@;
    let q = count_earlier(times, t);
    proof {
        lemma_filter_prefix(old_times, q as int, earlier_than(t));
    }
    if q < times.len() && times[q] == t {
        proof {
            lemma_filter_suffix(old_times, q + 1, later_than(t));
            assert(old_times =~= old_times.take(q as int) + seq![t] + old_times.skip(q + 1));
            assert(old_times[q as int] == t);
        }
    } else {
        proof {
            lemma_filter_suffix(old_times, q as int, later_than(t));
            lemma_insert_increasing(old_times, q as int, t);
        }
        times.insert(q, t);
        proof {
            assert(times@ =~= old_times.take(q as int) + seq![t] + old_times.skip(q as int));
        }
    }
}

/// Inserting `t` between the smaller and the larger times keeps the times
/// strictly increasing.
proof fn lemma_insert_increasing(s: Seq<i64>, q: int, t: i64)
    requires
        0 <= q <= s.len(),
        strictly_increasing(s),
        forall|j: int| 0 <= j < q ==> s[j] < t,
        forall|j: int| q <= j < s.len() ==> s[j] > t,
    ensures
        strictly_increasing(s.insert(q, t)),
{
    let r = s.insert(q, t);
    assert forall|i: int, j: int| 0 <= i < j < r.len() implies r[i] < r[j] by {
        if j < q {
            assert(r[i] == s[i] && r[j] == s[j]);
        } else if j == q {
            assert(r[i] == s[i]);
        } else if i < q {
            assert(r[i] == s[i] && r[j] == s[j - 1]);
        } else if i == q {
            assert(r[j] == s[j - 1]);
        } else {
            assert(r[i] == s[i - 1] && r[j] == s[j - 1]);
        }
    }
}

/// The set of times with `t` added holds `t` and every time it held.
pub proof fn lemma_insert_time_contains(times: Seq<i64>, t: i64)
    ensures
        insert_time(times, t).contains(t),
        forall|i: int| 0 <= i < times.len() ==> insert_time(times, t).contains(#[trigger] times[i]),
{
    let a = times.filter(earlier_than(t));
    let b = times.filter(later_than(t));
    let r = insert_time(times, t);
    assert(r[a.len() as int] == t);
    assert forall|i: int| 0 <= i < times.len() implies r.contains(#[trigger] times[i]) by {
        let x = times[i];
        if x < t {
            times.lemma_filter_contains(earlier_than(t), i);
            let k = choose|k: int| 0 <= k < a.len() && a[k] == x;
            assert(r[k] == x);
        } else if x > t {
            times.lemma_filter_contains(later_than(t), i);
            let k = choose|k: int| 0 <= k < b.len() && b[k] == x;
            assert(r[a.len() + 1 + k] == x);
        } else {
            assert(r[a.len() as int] == x);
        }
    }
}

/// The one-time tasks waiting to run, ordered by due time. Besides the
/// entries it keeps the set of due times it has seen, as a map from time to
/// a list of tasks does: removing a task leaves its time behind, and only
/// taking the due entries out drops it.
pub struct Schedules<H: ?Sized> {
    times: Vec<i64>,
    entries: Vec<(i64, SkedgyTask<H>)>,
}

impl<H: ?Sized> Schedules<H> {
    /// The due times, in increasing order.
    pub closed spec fn times(&self) -> Seq<i64> {
        self.times@
    }

    /// The waiting tasks with their due times, ordered by time; tasks due
    /// at the same time keep the order in which they came.
    pub closed spec fn entries(&self) -> Seq<(i64, SkedgyTask<H>)> {
        self.entries@
    }

    /// The times strictly increase, the entries are ordered by time, and
    /// every entry's time is among the times.
    pub open spec fn wf(&self) -> bool {
        &&& strictly_increasing(self.times())
        &&& time_sorted(self.entries())
        &&& forall|i: int| 0 <= i < self.entries().len() ==> self.times().contains(#[trigger] self.entries()[i].0)
    }

    /// The due times.
    pub fn time_list(&self) -> (r: &Vec<i64>)
        ensures
            r@ == self.times(),
    {
        &self.times
    }

    /// A copy of the entries.
    pub fn entry_list(&self) -> (r: Vec<(i64, SkedgyTask<H>)>)
        ensures
            r@ == self.entries(),
    {
        let mut out: Vec<(i64, SkedgyTask<H>)> = Vec::new();
        let mut i: usize = 0;
        while i < self.entries.len()
            invariant
                i <= self.entries@.len(),
                out@ == self.entries@.take(i as int),
            decreases self.entries@.len() - i,
        {
            out.push((self.entries[i].0, self.entries[i].1.duplicate()));
            proof {
                assert(out@ =~= self.entries@.take(i + 1));
            }
            i = i + 1;
        }
        proof {
            assert(self.entries@.take(i as int) =~= self.entries@);
        }
        out
    }

    /// An empty table.
    pub fn new() -> (r: Self)
        ensures
            r.wf(),
            r.times() == Seq::<i64>::empty(),
            r.entries() == Seq::<(i64, SkedgyTask<H>)>::empty(),
    {
        Schedules { times: Vec::new(), entries: Vec::new() }
    }

    /// The earliest due time.
    pub fn first_time(&self) -> (r: Option<i64>)
        ensures
            r == (if self.times().len() > 0 { Some(self.times()[0]) } else { None::<i64> }),
    {
        if self.times.len() > 0 {
            Some(self.times[0])
        } else {
            None
        }
    }

    /// Adds `task`, due at `t`, after every task due at or before `t`.
    pub fn insert(&mut self, t: i64, task: SkedgyTask<H>)
        requires
            old(self).wf(),
        ensures
            final(self).wf(),
            final(self).entries() == insert_at_time(old(self).entries(), t, task),
            final(self).times() == insert_time(old(self).times(), t),
    {
        let ghost old_entries = self.entries@;
        let ghost old_times = self.times@;
        let mut p = self.entries.len();
        while p > 0 && self.entries[p - 1].0 > t
            invariant
                p <= self.entries@.len(),
                self.entries@ == old_entries,
                time_sorted(old_entries),
                forall|j: int| p <= j < old_entries.len() ==> old_entries[j].0 > t,
            decreases p,
        {
            p = p - 1;
        }
        proof {
            assert forall|j: int| 0 <= j < p implies old_entries[j].0 <= t by {
                if p > 0 {
                    assert(old_entries[j].0 <= old_entries[p - 1].0);
                }
            }
            lemma_filter_prefix(old_entries, p as int, due_by::<SkedgyTask<H>>(t));
            lemma_filter_suffix(old_entries, p as int, due_after::<SkedgyTask<H>>(t));
        }
        self.entries.insert(p, (t, task));
        proof {
            assert(self.entries@ =~= insert_at_time(old_entries, t, task));
        }
        add_time(&mut self.times, t);
        proof {
            lemma_insert_time_contains(old_times, t);
            let e = self.entries@;
            let ts = self.times@;
            assert forall|i: int| 0 <= i < e.len() implies ts.contains(#[trigger] e[i].0) by {
                if i < p {
                    assert(e[i] == old_entries[i]);
                    let m = choose|m: int| 0 <= m < old_times.len() && old_times[m] == old_entries[i].0;
                    assert(ts.contains(old_times[m]));
                } else if i > p {
                    assert(e[i] == old_entries[i - 1]);
                    let m = choose|m: int| 0 <= m < old_times.len() && old_times[m] == old_entries[i - 1].0;
                    assert(ts.contains(old_times[m]));
                } else {
                    assert(e[i].0 == t);
                }
            }
        }
    }

    /// Takes out every entry due before `end`, in order, and drops the due
    /// times before `end`.
    pub fn take_before(&mut self, end: i64) -> (r: Vec<(i64, SkedgyTask<H>)>)
        requires
            old(self).wf(),
        ensures
            final(self).wf(),
            r@ == old(self).entries().filter(due_before::<SkedgyTask<H>>(end)),
            time_sorted(r@),
            final(self).entries() == old(self).entries().filter(due_from::<SkedgyTask<H>>(end)),
            final(self).times() == old(self).times().filter(not_earlier_than(end)),
    {
        let ghost old_entries = self.entries@;
        let ghost old_times = self.times@;
        let mut p: usize = 0;
        while p < self.entries.len() && self.entries[p].0 < end
            invariant
                p <= self.entries@.len(),
                self.entries@ == old_entries,
                forall|j: int| 0 <= j < p ==> old_entries[j].0 < end,
            decreases self.entries@.len() - p,
        {
            p = p + 1;
        }
        proof {
            assert forall|j: int| p <= j < old_entries.len() implies old_entries[j].0 >= end by {
                if p < old_entries.len() {
                    assert(old_entries[p as int].0 <= old_entries[j].0);
                }
            }
            lemma_filter_prefix(old_entries, p as int, due_before::<SkedgyTask<H>>(end));
            lemma_filter_suffix(old_entries, p as int, due_from::<SkedgyTask<H>>(end));
        }
        let mut batch = self.entries.split_off(p);
        std::mem::swap(&mut batch, &mut self.entries);
        let mut q: usize = 0;
        while q < self.times.len() && self.times[q] < end
            invariant
                q <= self.times@.len(),
                self.times@ == old_times,
                forall|j: int| 0 <= j < q ==> old_times[j] < end,
            decreases self.times@.len() - q,
        {
            q = q + 1;
        }
        proof {
            assert forall|j: int| q <= j < old_times.len() implies old_times[j] >= end by {
                if q < old_times.len() {
                    assert(old_times[q as int] <= old_times[j]);
                }
            }
            lemma_filter_suffix(old_times, q as int, not_earlier_than(end));
        }
        let kept = self.times.split_off(q);
        self.times = kept;
        proof {
            let e = self.entries@;
            let ts = self.times@;
            assert forall|i: int| 0 <= i < e.len() implies ts.contains(#[trigger] e[i].0) by {
                assert(e[i] == old_entries[p + i]);
                let m = choose|m: int| 0 <= m < old_times.len() && old_times[m] == old_entries[p + i].0;
                assert(m >= q);
                assert(ts[m - q] == old_times[m]);
            }
        }
        batch
    }

    /// Drops every entry whose task is named `id`; the due times stay.
    pub fn remove_named(&mut self, id: &String)
        requires
            old(self).wf(),
        ensures
            final(self).wf(),
            final(self).entries() == old(self).entries().filter(not_named::<H>(id@)),
            final(self).times() == old(self).times(),
    {
        let ghost old_entries = self.entries@;
        let ghost pred: spec_fn((i64, SkedgyTask<H>)) -> bool = not_named::<H>(id@);
        let mut i: usize = 0;
        let ghost mut seen: int = 0;
        while i < self.entries.len()
            invariant
                0 <= i <= seen <= old_entries.len(),
                pred == not_named::<H>(id@),
                self.entries@.len() == i + (old_entries.len() - seen),
                self.entries@.take(i as int) == old_entries.take(seen).filter(pred),
                self.entries@.skip(i as int) == old_entries.skip(seen),
                self.times@ == old(self).times@,
                strictly_increasing(self.times@),
                forall|j: int| 0 <= j < self.entries@.len() ==> self.times@.contains(#[trigger] self.entries@[j].0),
                forall|a: int, b: int| 0 <= a < b < self.entries@.len() ==> self.entries@[a].0 <= self.entries@[b].0,
            decreases self.entries@.len() - i,
        {
            let ghost before = self.entries@;
            proof {
                assert(before[i as int] == before.skip(i as int)[0]);
                assert(old_entries.skip(seen)[0] == old_entries[seen]);
                crate::ordering::lemma_filter_take_succ(old_entries, seen, pred);
            }
            if self.entries[i].1.id == *id {
                self.entries.remove(i);
                proof {
                    assert(before[i as int] == old_entries[seen]);
                    assert(before[i as int].1.id@ == id@);
                    assert(old_entries[seen].1.id@ == id@);
                    assert(!pred(old_entries[seen]));
                    assert(self.entries@.take(i as int) =~= before.take(i as int));
                    assert forall|j: int| 0 <= j < self.entries@.skip(i as int).len() implies
                        #[trigger] self.entries@.skip(i as int)[j] == old_entries.skip(seen + 1)[j] by {
                        assert(self.entries@[i + j] == before[i + 1 + j]);
                        assert(before.skip(i as int)[1 + j] == old_entries.skip(seen)[1 + j]);
                    }
                    assert(self.entries@.skip(i as int) =~= old_entries.skip(seen + 1));
                    seen = seen + 1;
                }
            } else {
                proof {
                    assert(before.take(i + 1) =~= before.take(i as int).push(before[i as int]));
                    assert forall|j: int| 0 <= j < before.skip(i + 1).len() implies
                        #[trigger] before.skip(i + 1)[j] == old_entries.skip(seen + 1)[j] by {
                        assert(before.skip(i as int)[1 + j] == old_entries.skip(seen)[1 + j]);
                    }
                    assert(before.skip(i + 1) =~= old_entries.skip(seen + 1));
                    seen = seen + 1;
                }
                i = i + 1;
            }
        }
        proof {
            assert(self.entries@ =~= self.entries@.take(i as int));
            assert(old_entries.take(seen) =~= old_entries);
        }
    }
}

} // verus!
