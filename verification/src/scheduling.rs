//! Production scheduling: a simple priority-based forward scheduler.
use vstd::prelude::*;
use crate::common::{Id, Timestamp, fits_u64};
use crate::sort::{
    SortKey, is_permutation_of_range, lemma_sorted_order_correct, lemma_sorted_order_indices,
    sorted_order, stable_order,
};

verus! {

/// Priority level for scheduling, from lowest to highest.
#[derive(Debug, Clone, Copy, PartialEq, Eq, PartialOrd, Ord, Structural)]
pub enum Priority {
    Low,
    Medium,
    High,
    Urgent,
}

impl Priority {
    /// Rank of the priority: 0 for `Low` up to 3 for `Urgent`.
    pub open spec fn spec_rank(self) -> u64 {
        match self {
            Priority::Low => 0,
            Priority::Medium => 1,
            Priority::High => 2,
            Priority::Urgent => 3,
        }
    }

    /// Rank of the priority: 0 for `Low` up to 3 for `Urgent`.
    pub fn rank(&self) -> (r: u64)
        ensures
            r == self.spec_rank(),
    {
        match self {
            Priority::Low => 0,
            Priority::Medium => 1,
            Priority::High => 2,
            Priority::Urgent => 3,
        }
    }
}

/// A schedulable production job.
#[derive(Debug, Clone, Copy, PartialEq, Eq, Structural)]
pub struct ProductionJob {
    pub work_order_id: Id,
    pub priority: Priority,
    pub duration_seconds: u64,
    pub earliest_start: Timestamp,
}

/// Scheduling key of a job: higher priority first, then earlier start.
pub open spec fn job_key(job: ProductionJob) -> SortKey {
    ((3 - job.priority.spec_rank()) as u64, job.earliest_start)
}

/// The scheduling keys of the jobs, position by position.
pub open spec fn job_keys(jobs: Seq<ProductionJob>) -> Seq<SortKey> {
    Seq::new(jobs.len(), |i: int| job_key(jobs[i]))
}

/// The jobs in scheduling order: priority descending, then earliest start
/// ascending, jobs with equal keys keeping their input order.
pub open spec fn schedule_order(jobs: Seq<ProductionJob>) -> Seq<ProductionJob> {
    let order = sorted_order(job_keys(jobs), jobs.len());
    Seq::new(order.len(), |k: int| jobs[order[k] as int])
}

/// The time at which the jobs `s`, run back to back in order from `t`, are
/// all finished: each starts at the later of the previous end and its
/// earliest start.
pub open spec fn finish_time(s: Seq<ProductionJob>, t: int) -> int
    decreases s.len(),
{
    if s.len() == 0 {
        t
    } else {
        let f = finish_time(s.drop_last(), t);
        let start = if f >= s.last().earliest_start { f } else { s.last().earliest_start as int };
        start + s.last().duration_seconds
    }
}

/// Start time of job `k` of `s` when the jobs run back to back from `t`.
pub open spec fn start_time_of(s: Seq<ProductionJob>, t: int, k: int) -> int {
    let f = finish_time(s.take(k), t);
    if f >= s[k].earliest_start { f } else { s[k].earliest_start as int }
}

/// Running the jobs back to back from `t` keeps every time within `u64`.
pub open spec fn schedule_fits(s: Seq<ProductionJob>, t: int) -> bool {
    forall|k: int| 0 <= k <= s.len() ==> #[trigger] fits_u64(finish_time(s.take(k), t))
}

/// Simple forward scheduler: orders the jobs by priority (descending) then
/// earliest start (ascending), and runs them back to back from
/// `start_time`, each starting no earlier than its earliest start. Returns
/// `(work order id, start, end)` for each job in that order.
pub fn forward_schedule(jobs: &[ProductionJob], start_time: Timestamp) -> (r: Vec<
    (Id, Timestamp, Timestamp),
>)
    requires
        schedule_fits(schedule_order(jobs@), start_time as int),
    ensures
        r@.len() == jobs@.len(),
        forall|k: int|
            0 <= k < r@.len() ==> {
                let s = schedule_order(jobs@);
                let start = start_time_of(s, start_time as int, k);
                &&& (#[trigger] r@[k]).0 == s[k].work_order_id
                &&& r@[k].1 == start
                &&& r@[k].2 == start + s[k].duration_seconds
            },
{
    let n = jobs.len();
    let mut keys: Vec<SortKey> = Vec::new();
    let mut i: usize = 0;
    while i < n
        invariant
            n == jobs@.len(),
            0 <= i <= n,
            keys@ == job_keys(jobs@).take(i as int),
        decreases n - i,
    {
        let job = jobs[i];
        keys.push((3 - job.priority.rank(), job.earliest_start));
        assert(keys@ =~= job_keys(jobs@).take(i + 1));
        i = i + 1;
    }
    assert(keys@ =~= job_keys(jobs@));
    let order = stable_order(&keys);
    let ghost s = schedule_order(jobs@);
    proof {
        lemma_sorted_order_indices(keys@, n as nat);
    }
    let mut out: Vec<(Id, Timestamp, Timestamp)> = Vec::new();
    let mut current: Timestamp = start_time;
    let mut k: usize = 0;
    while k < n
        invariant
            n == jobs@.len(),
            order@ == sorted_order(job_keys(jobs@), n as nat),
            order@.len() == n,
            forall|m: int| 0 <= m < n ==> #[trigger] order@[m] < n,
            s == schedule_order(jobs@),
            s.len() == n,
            schedule_fits(s, start_time as int),
            0 <= k <= n,
            current == finish_time(s.take(k as int), start_time as int),
            out@.len() == k,
            forall|m: int|
                0 <= m < k ==> {
                    let start = start_time_of(s, start_time as int, m);
                    &&& (#[trigger] out@[m]).0 == s[m].work_order_id
                    &&& out@[m].1 == start
                    &&& out@[m].2 == start + s[m].duration_seconds
                },
        decreases n - k,
    {
        let job = jobs[order[k]];
        assert(job == s[k as int]);
        let job_start: Timestamp = if current >= job.earliest_start {
            current
        } else {
            job.earliest_start
        };
        assert(s.take(k + 1).drop_last() =~= s.take(k as int));
        assert(fits_u64(finish_time(s.take(k + 1), start_time as int)));
        let job_end = job_start + job.duration_seconds;
        current = job_end;
        out.push((job.work_order_id, job_start, job_end));
        k = k + 1;
    }
    out
}

/// The scheduling order holds every job once, higher priorities first (a
/// job never follows one of lower priority in the declared order Low <
/// Medium < High < Urgent),
/// jobs of equal priority by earliest start, and jobs with equal priority
/// and earliest start in their input order.
pub proof fn lemma_schedule_order(jobs: Seq<ProductionJob>)
    requires
        jobs.len() <= usize::MAX,
    ensures
        ({
            let order = sorted_order(job_keys(jobs), jobs.len());
            let s = schedule_order(jobs);
            &&& is_permutation_of_range(order, jobs.len())
            &&& s.len() == jobs.len()
            &&& forall|k: int| 0 <= k < s.len() ==> #[trigger] s[k] == jobs[order[k] as int]
            &&& forall|p: int, q: int|
                0 <= p < q < s.len() ==> {
                    ||| (#[trigger] s[p]).priority.spec_rank() > (#[trigger] s[q]).priority.spec_rank()
                    ||| (s[p].priority == s[q].priority && s[p].earliest_start <= s[q].earliest_start)
                }
            &&& forall|p: int, q: int|
                0 <= p < q < s.len() && (#[trigger] s[p]).priority == (#[trigger] s[q]).priority
                    && s[p].earliest_start == s[q].earliest_start ==> order[p] < order[q]
            &&& forall|p: int, q: int|
                0 <= p < q < s.len() ==> {
                    &&& (#[trigger] s[p]).priority == Priority::Low ==> (#[trigger] s[q]).priority
                        == Priority::Low
                    &&& s[p].priority == Priority::Medium ==> (s[q].priority == Priority::Low
                        || s[q].priority == Priority::Medium)
                    &&& s[p].priority == Priority::High ==> s[q].priority != Priority::Urgent
                }
        }),
{
    let keys = job_keys(jobs);
    let order = sorted_order(keys, jobs.len());
    let s = schedule_order(jobs);
    lemma_sorted_order_correct(keys, jobs.len());
    assert forall|p: int, q: int| 0 <= p < q < s.len() implies {
        ||| (#[trigger] s[p]).priority.spec_rank() > (#[trigger] s[q]).priority.spec_rank()
        ||| (s[p].priority == s[q].priority && s[p].earliest_start <= s[q].earliest_start)
    } by {
        assert(!crate::sort::key_lt(keys[order[q] as int], keys[order[p] as int]));
        assert(s[p].priority.spec_rank() == s[q].priority.spec_rank() ==> s[p].priority == s[q].priority);
    }
    assert forall|p: int, q: int|
        0 <= p < q < s.len() && (#[trigger] s[p]).priority == (#[trigger] s[q]).priority
            && s[p].earliest_start == s[q].earliest_start implies order[p] < order[q] by {
        assert(keys[order[p] as int] == keys[order[q] as int]);
    }
    assert forall|p: int, q: int| 0 <= p < q < s.len() implies {
        &&& (#[trigger] s[p]).priority == Priority::Low ==> (#[trigger] s[q]).priority == Priority::Low
        &&& s[p].priority == Priority::Medium ==> (s[q].priority == Priority::Low || s[q].priority
            == Priority::Medium)
        &&& s[p].priority == Priority::High ==> s[q].priority != Priority::Urgent
    } by {
        assert(!crate::sort::key_lt(keys[order[q] as int], keys[order[p] as int]));
    }
}

/// Jobs run back to back never finish before the start time.
proof fn lemma_finish_after_start(s: Seq<ProductionJob>, t: int)
    ensures
        finish_time(s, t) >= t,
    decreases s.len(),
{
    if s.len() > 0 {
        lemma_finish_after_start(s.drop_last(), t);
    }
}

/// In a forward schedule each job starts no earlier than the schedule's
/// start time and its own earliest start, and no earlier than the end of
/// the job before it: jobs never overlap.
pub proof fn lemma_schedule_no_overlap(s: Seq<ProductionJob>, t: int, k: int)
    requires
        0 <= k < s.len(),
    ensures
        start_time_of(s, t, k) >= t,
        start_time_of(s, t, k) >= s[k].earliest_start,
        k + 1 < s.len() ==> start_time_of(s, t, k + 1) >= start_time_of(s, t, k)
            + s[k].duration_seconds,
{
    lemma_finish_after_start(s.take(k), t);
    if k + 1 < s.len() {
        assert(s.take(k + 1).drop_last() =~= s.take(k));
        assert(s.take(k + 1).last() == s[k]);
    }
}

/// Ranks follow the declared order of priorities: Low < Medium < High <
/// Urgent.
pub proof fn lemma_rank_follows_declared_order()
    ensures
        Priority::Low.spec_rank() < Priority::Medium.spec_rank(),
        Priority::Medium.spec_rank() < Priority::High.spec_rank(),
        Priority::High.spec_rank() < Priority::Urgent.spec_rank(),
        Priority::Urgent.spec_rank() <= 3,
{
}

} // verus!
