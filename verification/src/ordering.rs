use vstd::prelude::*;

verus! {

/// The times of `s` never decrease.
pub open spec fn time_sorted<T>(s: Seq<(i64, T)>) -> bool {
    forall|i: int, j: int| 0 <= i < j < s.len() ==> s[i].0 <= s[j].0
}

/// Holds of an entry whose time is `k`.
pub open spec fn time_is<T>(k: i64) -> spec_fn((i64, T)) -> bool {
    |e: (i64, T)| e.0 == k
}

/// The entries of `s` whose time is `k`, in their order in `s`.
pub open spec fn due_at<T>(s: Seq<(i64, T)>, k: i64) -> Seq<(i64, T)> {
    s.filter(time_is::<T>(k))
}

/// `r` is `s` ordered by time, entries of equal time keeping their order
/// in `s` (a stable sort by time).
pub open spec fn is_time_ordering<T>(r: Seq<(i64, T)>, s: Seq<(i64, T)>) -> bool {
    &&& time_sorted(r)
    &&& forall|k: i64| #[trigger] due_at(r, k) == due_at(s, k)
}

/// Taking one more element of `s` adds it to the filter when it passes.
pub proof fn lemma_filter_take_succ<A>(s: Seq<A>, i: int, p: spec_fn(A) -> bool)
    requires
        0 <= i < s.len(),
    ensures
        s.take(i + 1).filter(p) == if p(s[i]) {
            s.take(i).filter(p).push(s[i])
        } else {
            s.take(i).filter(p)
        },
{
    assert(s.take(i + 1) =~= s.take(i).push(s[i]));
    s.take(i).lemma_filter_push(s[i], p);
}

/// A filter that lets nothing through is empty.
pub proof fn lemma_filter_none<A>(s: Seq<A>, p: spec_fn(A) -> bool)
    requires
        forall|j: int| 0 <= j < s.len() ==> !p(s[j]),
    ensures
        s.filter(p) == Seq::<A>::empty(),
{
    assert(s.all(|x: A| !p(x)));
    s.lemma_all_neg_filter_empty(p);
    assert(s.filter(p) =~= Seq::<A>::empty());
}

/// A filter that lets everything through keeps the sequence.
pub proof fn lemma_filter_all<A>(s: Seq<A>, p: spec_fn(A) -> bool)
    requires
        forall|j: int| 0 <= j < s.len() ==> p(s[j]),
    ensures
        s.filter(p) == s,
    decreases s.len(),
{
    reveal(Seq::filter);
    if s.len() > 0 {
        lemma_filter_all(s.drop_last(), p);
        assert(s.drop_last().push(s.last()) =~= s);
    }
}

/// Appending an entry adds it to the entries of its own time only.
pub proof fn lemma_due_at_push<T>(s: Seq<(i64, T)>, e: (i64, T), k: i64)
    ensures
        due_at(s.push(e), k) == if e.0 == k {
            due_at(s, k).push(e)
        } else {
            due_at(s, k)
        },
{
    s.lemma_filter_push(e, time_is::<T>(k));
}

/// Inserting an entry between the entries not later than it and those
/// later than it adds it at the end of the entries of its own time.
pub proof fn lemma_due_at_insert<T>(r: Seq<(i64, T)>, p: int, e: (i64, T), k: i64)
    requires
        0 <= p <= r.len(),
        forall|j: int| 0 <= j < p ==> r[j].0 <= e.0,
        forall|j: int| p <= j < r.len() ==> r[j].0 > e.0,
    ensures
        due_at(r.insert(p, e), k) == if e.0 == k {
            due_at(r, k).push(e)
        } else {
            due_at(r, k)
        },
{
    let pred = time_is::<T>(k);
    let a = r.subrange(0, p);
    let b = r.subrange(p, r.len() as int);
    assert(r =~= a + b);
    assert(r.insert(p, e) =~= a.push(e) + b);
    Seq::filter_distributes_over_add(a.push(e), b, pred);
    Seq::filter_distributes_over_add(a, b, pred);
    a.lemma_filter_push(e, pred);
    if e.0 == k {
        assert forall|j: int| 0 <= j < b.len() implies !pred(b[j]) by {
            assert(b[j] == r[p + j]);
        }
        lemma_filter_none(b, pred);
        assert(a.filter(pred) + Seq::<(i64, T)>::empty() =~= a.filter(pred));
        assert(a.filter(pred).push(e) + Seq::<(i64, T)>::empty() =~= a.filter(pred).push(e));
    }
}

/// Sorts `extra` into `sorted` by time: each entry of `extra`, in order,
/// goes after every entry not later than it. The result is the stable
/// ordering by time of `sorted` followed by `extra`.
pub fn merge_by_time<T>(sorted: Vec<(i64, T)>, extra: Vec<(i64, T)>) -> (r: Vec<(i64, T)>)
    requires
        time_sorted(sorted@),
    ensures
        is_time_ordering(r@, sorted@ + extra@),
{
    let ghost orig = extra@;
    let mut r = sorted;
    let mut rest = extra;
    let ghost mut done: Seq<(i64, T)> = Seq::empty();
    assert(sorted@ + done =~= sorted@);
    while rest.len() > 0
        invariant
            time_sorted(r@),
            done + rest@ == orig,
            forall|k: i64| #[trigger] due_at(r@, k) == due_at(sorted@ + done, k),
        decreases rest.len(),
    {
        let e = rest.remove(0);
        let t = e.0;
        let mut p = r.len();
        while p > 0 && r[p - 1].0 > t
            invariant
                p <= r.len(),
                time_sorted(r@),
                forall|j: int| p <= j < r.len() ==> r@[j].0 > t,
            decreases p,
        {
            p = p - 1;
        }
        proof {
            assert forall|j: int| 0 <= j < p implies r@[j].0 <= t by {
                if p > 0 {
                    assert(r@[j].0 <= r@[p - 1].0);
                }
            }
            assert forall|k: i64| #[trigger] due_at(r@.insert(p as int, e), k) == due_at(sorted@ + done.push(e), k) by {
                lemma_due_at_insert(r@, p as int, e, k);
                assert(sorted@ + done.push(e) =~= (sorted@ + done).push(e));
                lemma_due_at_push(sorted@ + done, e, k);
            }
            assert(done.push(e) + rest@ =~= orig);
        }
        r.insert(p, e);
        proof {
            done = done.push(e);
        }
    }
    proof {
        assert(done =~= orig);
    }
    r
}

} // verus!
