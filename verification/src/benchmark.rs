//! Times of repeated runs: their order, and what stands for all of them.

use crate::order::{
    ranked, ranked_in_order, ranked_is_permutation, sort_ranked, view_of, views, Ranked,
};
use crate::text::same_text;
use vstd::prelude::*;

verus! {

broadcast use crate::order::group_views;

impl Ranked for u64 {
    open spec fn before(a: u64, b: u64) -> bool {
        a < b
    }

    proof fn before_irreflexive(a: u64) {
    }

    proof fn before_transitive(a: u64, b: u64, c: u64) {
    }

    proof fn before_total(a: u64, b: u64, c: u64) {
    }

    fn is_before(&self, other: &Self) -> bool {
        *self < *other
    }
}

/// What stands for the times of some runs.
#[derive(Clone, Copy, PartialEq, Eq, Structural, Debug)]
pub struct MetricTimes {
    pub samples: usize,
    pub total: u128,
    pub min: u64,
    pub p50: u64,
    pub p95: u64,
    pub max: u64,
}

/// All times together.
pub open spec fn total_time(samples: Seq<u64>) -> nat
    decreases samples.len(),
{
    if samples.len() == 0 {
        0
    } else {
        total_time(samples.drop_last()) + samples.last() as nat
    }
}

/// The place of the time that half of the runs do not exceed, among times in order.
pub open spec fn p50_place(count: nat) -> int {
    (count - 1) / 2
}

/// The place of the time that nineteen of twenty runs do not exceed, among times in order.
pub open spec fn p95_place(count: nat) -> int {
    (count * 95 + 99) / 100 - 1
}

/// What stands for the times of some runs.
pub open spec fn times_of(samples: Seq<u64>) -> MetricTimes
    recommends
        samples.len() > 0,
{
    let sorted = ranked::<u64>(samples);
    MetricTimes {
        samples: samples.len() as usize,
        total: total_time(samples) as u128,
        min: sorted[0],
        p50: sorted[p50_place(samples.len())],
        p95: sorted[p95_place(samples.len())],
        max: sorted.last(),
    }
}

proof fn total_is_bounded(samples: Seq<u64>)
    ensures
        total_time(samples) <= samples.len() * u64::MAX,
    decreases samples.len(),
{
    if samples.len() > 0 {
        total_is_bounded(samples.drop_last());
        assert((samples.len() - 1) * u64::MAX + u64::MAX == samples.len() * u64::MAX)
            by (nonlinear_arith);
    }
}

impl MetricTimes {
    /// What stands for the times of some runs.
    pub fn new(samples: Vec<u64>) -> (times: Self)
        requires
            samples@.len() > 0,
            samples@.len() * 95 + 99 <= usize::MAX,
        ensures
            times == times_of(samples@),
    {
        let ghost all = samples@;
        let count = samples.len();
        let mut total: u128 = 0;
        let mut i: usize = 0;
        while i < count
            invariant
                i <= count,
                count == samples@.len(),
                all == samples@,
                count * 95 + 99 <= usize::MAX,
                total == total_time(all.take(i as int)),
            decreases count - i,
        {
            proof {
                assert(all.take(i + 1).drop_last() =~= all.take(i as int));
                total_is_bounded(all.take(i as int));
                assert(i * u64::MAX + u64::MAX <= u128::MAX) by (nonlinear_arith)
                    requires
                        i <= usize::MAX - 1,
                        usize::MAX <= u64::MAX,
                ;
            }
            total = total + samples[i] as u128;
            i = i + 1;
        }
        proof {
            assert(all.take(i as int) =~= all);
            assert(views(all) =~= all);
            ranked_is_permutation::<u64>(all);
        }
        let sorted = sort_ranked(samples);
        assert(views(sorted@) =~= sorted@);
        MetricTimes {
            samples: count,
            total,
            min: sorted[0],
            p50: sorted[(count - 1) / 2],
            p95: sorted[(count * 95 + 99) / 100 - 1],
            max: sorted[count - 1],
        }
    }
}

/// Nineteen of twenty runs took no longer than the time that stands for them, and half of the
/// runs no longer than the time in the middle.
pub proof fn percentiles_cover(samples: Seq<u64>, i: int)
    requires
        samples.len() > 0,
        0 <= i < samples.len(),
    ensures
        0 <= p95_place(samples.len()) < samples.len(),
        (p95_place(samples.len()) + 1) * 100 >= samples.len() * 95,
        0 <= p50_place(samples.len()) < samples.len(),
        (p50_place(samples.len()) + 1) * 2 >= samples.len(),
        i <= p95_place(samples.len()) ==> ranked::<u64>(samples)[i] <= times_of(samples).p95,
        i <= p50_place(samples.len()) ==> ranked::<u64>(samples)[i] <= times_of(samples).p50,
        times_of(samples).min <= ranked::<u64>(samples)[i] <= times_of(samples).max,
{
    ranked_in_order::<u64>(samples);
    ranked_is_permutation::<u64>(samples);
    let sorted = ranked::<u64>(samples);
    let p95 = p95_place(samples.len());
    let p50 = p50_place(samples.len());
    assert(i < p95 ==> !u64::before(sorted[p95], sorted[i]));
    assert(i < p50 ==> !u64::before(sorted[p50], sorted[i]));
    assert(0 < i ==> !u64::before(sorted[i], sorted[0]));
    assert(i < sorted.len() - 1 ==> !u64::before(sorted[sorted.len() - 1], sorted[i]));
}

/// Which of two programs runs first, so that neither always runs after the other.
pub fn runs_first(index: usize) -> (first: bool)
    ensures
        first == (index % 2 == 0),
{
    index % 2 == 0
}

/// What a metric may take at most, in milliseconds.
pub open spec fn limit_of(metric: Seq<char>) -> Option<u64> {
    if metric == "wasm_plugin_load_subsequent"@ {
        Some(100)
    } else if metric == "jj_detect"@ {
        Some(150)
    } else if metric == "jj_prepare_existing_snapshot"@ {
        Some(200)
    } else if metric == "jj_prepare_fresh_snapshot"@ {
        Some(300)
    } else if metric == "jj_state_pinned_raw"@ {
        Some(200)
    } else if metric == "jj_state_pinned_host_cached"@ {
        Some(1)
    } else if metric == "jj_working_copy_pinned_raw"@ {
        Some(200)
    } else if metric == "jj_working_copy_pinned_host_cached"@ {
        Some(1)
    } else {
        None
    }
}

/// The metrics with a limit, in the order in which they are reported.
pub open spec fn limited_metrics() -> Seq<&'static str> {
    seq![
        "wasm_plugin_load_subsequent",
        "jj_detect",
        "jj_prepare_existing_snapshot",
        "jj_prepare_fresh_snapshot",
        "jj_state_pinned_raw",
        "jj_state_pinned_host_cached",
        "jj_working_copy_pinned_raw",
        "jj_working_copy_pinned_host_cached",
    ]
}

/// The metrics with a limit, in the order in which they are reported.
pub fn budget_names() -> (names: Vec<&'static str>)
    ensures
        names@ == limited_metrics(),
{
    let mut names: Vec<&'static str> = Vec::new();
    names.push("wasm_plugin_load_subsequent");
    names.push("jj_detect");
    names.push("jj_prepare_existing_snapshot");
    names.push("jj_prepare_fresh_snapshot");
    names.push("jj_state_pinned_raw");
    names.push("jj_state_pinned_host_cached");
    names.push("jj_working_copy_pinned_raw");
    names.push("jj_working_copy_pinned_host_cached");
    names
}

/// What a metric may take at most, in milliseconds.
pub fn budget_millis(metric: &str) -> (limit: Option<u64>)
    ensures
        limit == limit_of(metric@),
{
    if same_text(metric, "wasm_plugin_load_subsequent") {
        Some(100)
    } else if same_text(metric, "jj_detect") {
        Some(150)
    } else if same_text(metric, "jj_prepare_existing_snapshot") {
        Some(200)
    } else if same_text(metric, "jj_prepare_fresh_snapshot") {
        Some(300)
    } else if same_text(metric, "jj_state_pinned_raw") {
        Some(200)
    } else if same_text(metric, "jj_state_pinned_host_cached") {
        Some(1)
    } else if same_text(metric, "jj_working_copy_pinned_raw") {
        Some(200)
    } else if same_text(metric, "jj_working_copy_pinned_host_cached") {
        Some(1)
    } else {
        None
    }
}

/// The revision that a build is made of.
pub open spec fn revision_of(
    jj: Option<Seq<char>>,
    git: Option<Seq<char>>,
    dirty: bool,
) -> Seq<char> {
    match jj {
        Some(revision) => revision,
        None => match git {
            Some(revision) => if dirty {
                revision + "-dirty"@
            } else {
                revision
            },
            None => "unknown"@,
        },
    }
}

/// The revision that a build is made of: what Jujutsu says, else what Git says.
pub fn choose_revision(jj: Option<String>, git: Option<String>, dirty: bool) -> (revision: String)
    ensures
        revision@ == revision_of(view_of(jj), view_of(git), dirty),
{
    match jj {
        Some(revision) => revision,
        None => match git {
            Some(revision) => {
                let mut revision = revision;
                if dirty {
                    revision.append("-dirty");
                }
                revision
            },
            None => "unknown".to_owned(),
        },
    }
}

} // verus!
