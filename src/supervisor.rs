//! What the supervisor decides once its timed wait for a run ends, and the
//! summary it reports of a completed run.

use vstd::prelude::*;
use crate::audit::{ascending, check_completeness, invalid_ids, validate_batch};
use crate::record::{Record, ids};

verus! {

/// How a supervised run ended.
#[derive(Debug)]
pub enum RunOutcome {
    /// The run delivered its results before the deadline.
    Completed(Vec<Record>),
    /// No result came before the deadline; the run is abandoned.
    TimedOut,
    /// The run's result channel was dropped without a result.
    Collapsed,
}

impl RunOutcome {
    /// Timing out and collapsing end the process as failures.
    pub fn is_fatal(&self) -> (b: bool)
        ensures
            b == !(self is Completed),
    {
        !matches!(self, RunOutcome::Completed(_))
    }

    /// The process exit code: zero for a completed run, whatever the audits
    /// found, and one for a run that timed out or collapsed.
    pub fn exit_code(&self) -> (c: i32)
        ensures
            c == (if self is Completed {
                0i32
            } else {
                1i32
            }),
    {
        match self {
            RunOutcome::Completed(_) => 0,
            _ => 1,
        }
    }
}

/// How many ids a warning shows.
pub const PREVIEW_LEN: usize = 10;

/// The first ids of `v`, at most `PREVIEW_LEN` of them, for display.
pub fn preview(v: &Vec<u32>) -> (r: Vec<u32>)
    ensures
        r@ == v@.subrange(0, if v@.len() < PREVIEW_LEN {
            v@.len() as int
        } else {
            PREVIEW_LEN as int
        }),
{
    let end = if v.len() < PREVIEW_LEN {
        v.len()
    } else {
        PREVIEW_LEN
    };
    let mut r: Vec<u32> = Vec::new();
    let mut i: usize = 0;
    while i < end
        invariant
            i <= end <= v@.len(),
            r@ == v@.subrange(0, i as int),
        decreases end - i,
    {
        r.push(v[i]);
        i = i + 1;
        assert(r@ =~= v@.subrange(0, i as int));
    }
    r
}

/// What the audits found in a completed run.
#[derive(Debug, Clone)]
pub struct Report {
    pub processed: usize,
    pub valid: usize,
    pub invalid_ids: Vec<u32>,
    pub missing: Vec<u32>,
    pub duplicates: Vec<u32>,
}

/// Audit the results of a run that was to produce the ids `1..=expected`.
pub fn build_report(results: &Vec<Record>, expected: u32) -> (r: Report)
    ensures
        r.processed == results@.len(),
        r.invalid_ids@ == invalid_ids(results@),
        r.valid + r.invalid_ids@.len() == results@.len(),
        forall|x: u32| #[trigger] r.missing@.contains(x) <==> 1 <= x <= expected && ids(results@).count(x) == 0,
        ascending(r.missing@),
        forall|x: u32| #[trigger] r.duplicates@.contains(x) <==> ids(results@).count(x) >= 2,
        r.duplicates@.no_duplicates(),
{
    let (valid, invalid) = validate_batch(results);
    let (missing, duplicates) = check_completeness(results, expected);
    Report { processed: results.len(), valid, invalid_ids: invalid, missing, duplicates }
}

} // verus!
