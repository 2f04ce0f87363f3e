use vstd::prelude::*;
use std::str::FromStr;

use crate::error::SkedgyError;
use crate::time::{CRON_AFTER_MAX, MIN_MILLIS};

verus! {

/// Whether `cron::Schedule::from_str` accepts the pattern.
pub uninterp spec fn cron_pattern_valid(pattern: Seq<char>) -> bool;

/// The first time (milliseconds since the Unix epoch) strictly after `after`
/// that the cron pattern matches, as `cron::Schedule::after` yields it; `None`
/// where the pattern matches nothing later.
pub uninterp spec fn cron_next_after(pattern: Seq<char>, after: i64) -> Option<i64>;

/// Every time the pattern matches strictly after `start` and strictly before
/// `end`, in increasing order.
pub open spec fn cron_runs(pattern: Seq<char>, start: i64, end: i64) -> Seq<i64>
    decreases end - start,
{
    if start < end {
        match cron_next_after(pattern, start) {
            Some(n) => if start < n && n < end {
                seq![n] + cron_runs(pattern, n, end)
            } else {
                Seq::empty()
            },
            None => Seq::empty(),
        }
    } else {
        Seq::empty()
    }
}

/// `cron::Schedule::from_str(pattern).is_ok()`.
#[verifier::external_body]
fn cron_parses(pattern: &str) -> (r: bool)
    ensures
        r == cron_pattern_valid(pattern@),
{
    ::cron::Schedule::from_str(pattern).is_ok()
}

/// `cron::Schedule::from_str(pattern)` followed by the first item of
/// `Schedule::after` at `after` (converted with
/// `chrono::DateTime::from_timestamp_millis` and back with
/// `timestamp_millis`). The cron crate searches from one second past
/// `after`, so a result lies strictly after it; the `requires` keeps that
/// addition inside chrono's range, where it would otherwise panic.
#[verifier::external_body]
fn cron_first_after(pattern: &str, after: i64) -> (r: Option<i64>)
    requires
        MIN_MILLIS <= after <= CRON_AFTER_MAX,
    ensures
        r == cron_next_after(pattern@, after),
        r matches Some(n) ==> after < n,
{
    let schedule = ::cron::Schedule::from_str(pattern).ok()?;
    let start = chrono::DateTime::from_timestamp_millis(after)?;
    schedule.after(&start).next().map(|t| t.timestamp_millis())
}

/// A cron pattern that the cron crate accepts.
pub struct CronSchedule {
    pattern: String,
}

impl View for CronSchedule {
    type V = Seq<char>;

    closed spec fn view(&self) -> Seq<char> {
        self.pattern@
    }
}

impl CronSchedule {
    #[verifier::type_invariant]
    spec fn accepted(self) -> bool {
        cron_pattern_valid(self.pattern@)
    }

    /// Parses a cron pattern; `InvalidCron` where the cron crate refuses it.
    pub fn parse(pattern: &str) -> (r: Result<CronSchedule, SkedgyError>)
        ensures
            r is Ok <==> cron_pattern_valid(pattern@),
            r matches Ok(s) ==> s@ == pattern@,
            r matches Err(e) ==> e == SkedgyError::InvalidCron,
    {
        if cron_parses(pattern) {
            Ok(CronSchedule { pattern: pattern.to_owned() })
        } else {
            Err(SkedgyError::InvalidCron)
        }
    }

    /// The pattern's text.
    pub fn source(&self) -> (r: &str)
        ensures
            r@ == self@,
    {
        self.pattern.as_str()
    }

    /// An equal copy.
    pub fn duplicate(&self) -> (r: CronSchedule)
        ensures
            r == *self,
    {
        proof { use_type_invariant(self); }
        CronSchedule { pattern: self.pattern.clone() }
    }

    /// The first time strictly after `after` that the pattern matches.
    pub fn next_after(&self, after: i64) -> (r: Option<i64>)
        requires
            MIN_MILLIS <= after <= CRON_AFTER_MAX,
        ensures
            r == cron_next_after(self@, after),
            r matches Some(n) ==> after < n,
    {
        cron_first_after(self.pattern.as_str(), after)
    }

    /// Every time the pattern matches strictly after `start` and strictly
    /// before `end`, in increasing order.
    pub fn runs_between(&self, start: i64, end: i64) -> (r: Vec<i64>)
        requires
            MIN_MILLIS <= start,
            end <= CRON_AFTER_MAX + 1,
        ensures
            r@ == cron_runs(self@, start, end),
    {
        let mut runs: Vec<i64> = Vec::new();
        let mut t = start;
        while t < end
            invariant
                start <= t,
                MIN_MILLIS <= start,
                end <= CRON_AFTER_MAX + 1,
                runs@ + cron_runs(self@, t, end) == cron_runs(self@, start, end),
            decreases end - t,
        {
            match self.next_after(t) {
                Some(n) => {
                    if n < end {
                        runs.push(n);
                        proof {
                            assert(cron_runs(self@, t, end) == seq![n] + cron_runs(self@, n, end));
                            assert(runs@ + cron_runs(self@, n, end) == cron_runs(self@, start, end));
                        }
                        t = n;
                    } else {
                        proof { assert(runs@ + Seq::<i64>::empty() == runs@); }
                        return runs;
                    }
                },
                None => {
                    proof { assert(runs@ + Seq::<i64>::empty() == runs@); }
                    return runs;
                },
            }
        }
        proof { assert(runs@ + Seq::<i64>::empty() == runs@); }
        runs
    }
}

} // verus!
