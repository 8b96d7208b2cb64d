//! How the tasks of a run are shared out among jobs.

use crate::action_context::{LocatorView, TargetLocator};
use crate::action_run::RunRequirements;
use crate::action_state::{ActionGraphError, ActionGraphFault};
use crate::order::views;
use crate::table::Key;
use vstd::prelude::*;

verus! {

broadcast use crate::order::group_views;

/// The job that is asked for, and how many there are: where both are said, and there is one.
pub open spec fn wanted_job(reqs: RunRequirements) -> Option<(usize, usize)> {
    match (reqs.job, reqs.job_total) {
        (Some(index), Some(total)) => if total > 0 {
            Some((index, total))
        } else {
            None
        },
        _ => None,
    }
}

/// How many items a job takes, so that all jobs together take all.
pub open spec fn part_size(items: nat, total: nat) -> nat
    recommends
        total > 0,
{
    ((items + total - 1) / total as int) as nat
}

/// The first item of a job.
pub open spec fn part_start(items: nat, index: nat, total: nat) -> nat {
    part_size(items, total) * index
}

/// The item behind the last of a job. The last job takes all that is left.
pub open spec fn part_stop(items: nat, index: nat, total: nat) -> nat {
    if index > 0 && index == total - 1 {
        items
    } else {
        part_size(items, total) * (index + 1)
    }
}

/// The items of a job. A job that no items are left for takes all of them.
pub open spec fn part_of<A>(items: Seq<A>, index: nat, total: nat) -> Seq<A> {
    let start = part_start(items.len(), index, total);
    let stop = part_stop(items.len(), index, total);
    if start < items.len() {
        if stop < items.len() {
            items.subrange(start as int, stop as int)
        } else {
            items.skip(start as int)
        }
    } else {
        items
    }
}

/// The jobs that items are left for take the items in order, with no gap and none twice:
/// every item stands in the part of one such job.
pub proof fn parts_cover<A>(items: Seq<A>, total: nat, at: int)
    requires
        total > 0,
        0 <= at < items.len(),
    ensures
        exists|index: nat|
            index < total && #[trigger] part_start(items.len(), index, total) <= at < (part_start(
                items.len(),
                index,
                total,
            ) + part_of(items, index, total).len()) && part_of(items, index, total)[at - part_start(
                items.len(),
                index,
                total,
            )] == items[at],
{
    let n = items.len();
    let size = part_size(n, total);
    size_covers(n, total);
    let index = (at / size as int) as nat;
    assert(size * index <= at < size * (index + 1)) by (nonlinear_arith)
        requires
            size > 0,
            at >= 0,
            index == at / size as int,
    ;
    assert(index < total) by (nonlinear_arith)
        requires
            size > 0,
            size * index <= at,
            at < n,
            n <= size * total,
    ;
    assert(part_start(n, index, total) <= at);
}

/// No item stands in the parts of two jobs that items are left for.
pub proof fn parts_are_apart<A>(items: Seq<A>, total: nat, first: nat, second: nat)
    requires
        first < second < total,
        part_start(items.len(), second, total) < items.len(),
    ensures
        part_start(items.len(), first, total) + part_of(items, first, total).len() <= part_start(
            items.len(),
            second,
            total,
        ),
{
    let n = items.len();
    let size = part_size(n, total);
    size_covers(n, total);
    assert(size * (first + 1) <= size * second) by (nonlinear_arith)
        requires
            first + 1 <= second,
    ;
    assert(size * first <= size * (first + 1)) by (nonlinear_arith);
    assert(first != total - 1);
}

/// Parts of that size are enough.
pub proof fn size_covers(n: nat, total: nat)
    requires
        total > 0,
    ensures
        n <= part_size(n, total) * total,
        n > 0 ==> part_size(n, total) > 0,
        part_size(n, total) <= n,
{
    let m = n + total - 1;
    assert(m / total as int * total as int + m % total as int == m && 0 <= m % total as int
        && m % (total as int) < total) by (nonlinear_arith)
        requires
            total > 0,
    ;
    let size = m / total as int;
    assert(size >= 0) by (nonlinear_arith)
        requires
            size * total as int + m % total as int == m,
            m % (total as int) < total,
            m >= 0,
            total > 0,
    ;
    assert(size <= n) by (nonlinear_arith)
        requires
            size * total as int <= n + total - 1,
            total > 0,
            n >= 0,
    ;
    assert(n > 0 ==> size > 0) by (nonlinear_arith)
        requires
            size * total as int + m % total as int == m,
            m % (total as int) < total,
            m == n + total - 1,
            size >= 0,
    ;
}

/// The items of a job, and how many a job takes.
pub fn take_part<T: Key>(items: &Vec<T>, index: usize, total: usize) -> (part: (Vec<T>, usize))
    requires
        index < total,
    ensures
        views((part.0)@) == part_of(views(items@), index as nat, total as nat),
        part.1 == part_size(items@.len(), total as nat),
{
    let n = items.len();
    proof {
        size_covers(n as nat, total as nat);
        ceiling(n as int, total as int);
    }
    let ghost all = views(items@);
    let size: usize = if n % total == 0 {
        n / total
    } else {
        n / total + 1
    };
    assert(size == part_size(n as nat, total as nat));
    assert((size as u128) * (index as u128) <= 0xffff_ffff_ffff_ffff * 0xffff_ffff_ffff_ffff)
        by (nonlinear_arith)
        requires
            size <= 0xffff_ffff_ffff_ffff,
            index <= 0xffff_ffff_ffff_ffff,
    ;
    assert((size as u128) * ((index + 1) as u128) <= 0xffff_ffff_ffff_ffff * 0xffff_ffff_ffff_ffff)
        by (nonlinear_arith)
        requires
            size <= 0xffff_ffff_ffff_ffff,
            index + 1 <= 0xffff_ffff_ffff_ffff,
    ;
    let from: u128 = size as u128 * index as u128;
    let to: u128 = if index > 0 && index == total - 1 {
        n as u128
    } else {
        size as u128 * (index as u128 + 1)
    };
    let mut start: usize = 0;
    let mut stop: usize = n;
    if from < n as u128 {
        start = from as usize;
        if to < n as u128 {
            stop = to as usize;
        }
    }
    proof {
        assert(size * index <= size * (index + 1)) by (nonlinear_arith);
        assert(part_of(all, index as nat, total as nat) =~= all.subrange(start as int, stop as int));
    }
    let mut part: Vec<T> = Vec::new();
    let mut i = start;
    while i < stop
        invariant
            start <= i <= stop <= items@.len(),
            all == views(items@),
            views(part@) =~= all.subrange(start as int, i as int),
        decreases stop - i,
    {
        part.push(items[i].copy_key());
        i = i + 1;
    }
    (part, size)
}

proof fn ceiling(n: int, total: int)
    requires
        n >= 0,
        total > 0,
    ensures
        (n + total - 1) / total == if n % total == 0 {
            n / total
        } else {
            n / total + 1
        },
{
    let q = n / total;
    let r = n % total;
    assert(n == q * total + r && 0 <= r < total) by (nonlinear_arith)
        requires
            q == n / total,
            r == n % total,
            total > 0,
    ;
    if r == 0 {
        assert((n + total - 1) / total == q) by (nonlinear_arith)
            requires
                n == q * total,
                total > 0,
        ;
    } else {
        assert((n + total - 1) / total == q + 1) by (nonlinear_arith)
            requires
                n == q * total + r,
                0 < r < total,
        ;
    }
}

/// Which tasks a plan asks for.
#[derive(Debug)]
pub enum TargetsBlock {
    /// The tasks of every job.
    Partitioned { jobs: Vec<Vec<TargetLocator>> },
    /// These tasks.
    Filtered { included: Vec<TargetLocator> },
    /// These tasks.
    Included(Vec<TargetLocator>),
}

/// Which tasks a plan asks for, how they are to run, and how many there are of them where
/// the plan shares them out itself.
pub struct ChosenView {
    pub locators: Seq<LocatorView>,
    pub reqs: RunRequirements,
    pub size: Option<usize>,
}

/// Which tasks a plan asks for, how they are to run, and how many there are of them where
/// the plan shares them out itself.
#[derive(Debug)]
pub struct ChosenTargets<'a> {
    pub locators: &'a Vec<TargetLocator>,
    pub reqs: RunRequirements,
    pub size: Option<usize>,
}

impl<'a> View for ChosenTargets<'a> {
    type V = ChosenView;

    open spec fn view(&self) -> ChosenView {
        ChosenView { locators: views(self.locators@), reqs: self.reqs, size: self.size }
    }
}

/// What a plan asks for. One that shares out the tasks itself needs to know the job, and
/// that there are as many jobs as it knows.
pub open spec fn chosen_targets(block: TargetsBlock, reqs: RunRequirements) -> Result<
    ChosenView,
    ActionGraphFault,
> {
    match block {
        TargetsBlock::Partitioned { jobs } => match wanted_job(reqs) {
            None => Err(ActionGraphFault::InvalidPlanJobs),
            Some((index, total)) => if index >= total {
                Err(ActionGraphFault::InvalidJobIndex { index, total })
            } else if jobs@.len() != total {
                Err(
                    ActionGraphFault::MismatchedPlanJobTotals {
                        plan_total: jobs@.len() as usize,
                        total,
                    },
                )
            } else {
                Ok(
                    ChosenView {
                        locators: views(jobs@[index as int]@),
                        reqs: RunRequirements { job: None, job_total: None, ..reqs },
                        size: Some(jobs@[index as int]@.len() as usize),
                    },
                )
            },
        },
        TargetsBlock::Filtered { included } => Ok(
            ChosenView { locators: views(included@), reqs, size: None },
        ),
        TargetsBlock::Included(targets) => Ok(
            ChosenView { locators: views(targets@), reqs, size: None },
        ),
    }
}

impl TargetsBlock {
    /// What the plan asks for.
    pub fn choose_targets(&self, reqs: RunRequirements) -> (chosen: Result<
        ChosenTargets<'_>,
        ActionGraphError,
    >)
        ensures
            crate::order::outcome(chosen) == chosen_targets(*self, reqs),
    {
        match self {
            TargetsBlock::Partitioned { jobs } => {
                if let (Some(index), Some(total)) = (reqs.job, reqs.job_total) {
                    if total > 0 {
                        if index > total - 1 {
                            return Err(ActionGraphError::InvalidJobIndex { index, total });
                        }
                        if jobs.len() != total {
                            return Err(
                                ActionGraphError::MismatchedPlanJobTotals {
                                    plan_total: jobs.len(),
                                    total,
                                },
                            );
                        }
                        let locators = &jobs[index];
                        return Ok(
                            ChosenTargets {
                                locators,
                                reqs: RunRequirements { job: None, job_total: None, ..reqs },
                                size: Some(locators.len()),
                            },
                        );
                    }
                }
                Err(ActionGraphError::InvalidPlanJobs)
            },
            TargetsBlock::Filtered { included } => Ok(
                ChosenTargets { locators: included, reqs, size: None },
            ),
            TargetsBlock::Included(targets) => Ok(
                ChosenTargets { locators: targets, reqs, size: None },
            ),
        }
    }
}

} // verus!
