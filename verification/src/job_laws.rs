//! What holds of the jobs that share out a run.

use crate::action_builder::{
    affected_among, run_primary_all, run_primary_step, run_tasks_step, tasks_to_run, Targets,
};
use crate::action_laws::{a_place_is_given, place_is_first, run_task_keeps};
use crate::action_partition::{part_of, part_size, part_start, size_covers};
use crate::action_run::{task_affected, RunRequirements};
use crate::action_scene::{ready_task, SceneView};
use crate::action_state::{ActionGraphFault, StateView};
use crate::action_tasks::{plain_call, run_node};
use crate::keys::TaskKeyView;
use vstd::prelude::*;

verus! {

/// The requirements of one of several jobs.
pub open spec fn for_job(reqs: RunRequirements, job: usize, total: usize) -> RunRequirements {
    RunRequirements { job: Some(job), job_total: Some(total), ..reqs }
}

/// The tasks that jobs share out.
pub open spec fn shared_out(
    scene: SceneView,
    keys: Seq<TaskKeyView>,
    reqs: RunRequirements,
) -> Seq<TaskKeyView> {
    if reqs.skip_affected {
        keys
    } else {
        affected_among(scene, keys, reqs)
    }
}

/// The part of one job: as many tasks as every job takes, from where the job before it ended.
pub open spec fn job_part<A>(items: Seq<A>, job: nat, total: nat) -> Seq<A> {
    let size = part_size(items.len(), total);
    let stop = size * (job + 1);
    items.subrange(
        (size * job) as int,
        if stop < items.len() {
            stop as int
        } else {
            items.len() as int
        },
    )
}

/// The parts of the first jobs, one after the other.
pub open spec fn parts_together<A>(items: Seq<A>, jobs: nat, total: nat) -> Seq<A>
    decreases jobs,
{
    if jobs == 0 {
        Seq::empty()
    } else {
        parts_together(items, (jobs - 1) as nat, total) + job_part(items, (jobs - 1) as nat, total)
    }
}

/// Items are left for every job.
pub open spec fn enough_for(items: nat, total: nat) -> bool {
    total > 0 && part_start(items, (total - 1) as nat, total) < items
}

/// Where items are left for every job, a job takes its part.
proof fn jobs_take_their_part<A>(items: Seq<A>, job: nat, total: nat)
    requires
        job < total,
        enough_for(items.len(), total),
    ensures
        part_of(items, job, total) == job_part(items, job, total),
        part_size(items.len(), total) * job < items.len(),
{
    let n = items.len();
    let size = part_size(n, total);
    size_covers(n, total);
    assert(size * job <= size * (total - 1)) by (nonlinear_arith)
        requires
            job <= total - 1,
            size >= 0,
    ;
    assert(size * job <= size * (job + 1)) by (nonlinear_arith);
    assert(job == total - 1 ==> size * (job + 1) >= n);
    assert(part_of(items, job, total) =~= job_part(items, job, total));
}

proof fn first_parts<A>(items: Seq<A>, jobs: nat, total: nat)
    requires
        jobs <= total,
        enough_for(items.len(), total),
    ensures
        parts_together(items, jobs, total) == items.take(
            if part_size(items.len(), total) * jobs < items.len() {
                (part_size(items.len(), total) * jobs) as int
            } else {
                items.len() as int
            },
        ),
    decreases jobs,
{
    let size = part_size(items.len(), total);
    if jobs == 0 {
        assert(size * 0 == 0) by (nonlinear_arith);
        assert(parts_together(items, jobs, total) =~= items.take(0));
    } else {
        let job = (jobs - 1) as nat;
        first_parts(items, job, total);
        jobs_take_their_part(items, job, total);
        assert(size * job <= size * jobs) by (nonlinear_arith)
            requires
                job <= jobs,
        ;
        let stop = if size * jobs < items.len() {
            (size * jobs) as int
        } else {
            items.len() as int
        };
        assert(parts_together(items, jobs, total) =~= items.take(stop));
    }
}

proof fn affected_for_every_job(
    scene: SceneView,
    keys: Seq<TaskKeyView>,
    reqs: RunRequirements,
    job: usize,
    total: usize,
)
    ensures
        affected_among(scene, keys, for_job(reqs, job, total)) == affected_among(scene, keys, reqs),
        affected_among(scene, keys, reqs).len() <= keys.len(),
    decreases keys.len(),
{
    if keys.len() > 0 {
        affected_for_every_job(scene, keys.drop_last(), reqs, job, total);
        assert(task_affected(scene, for_job(reqs, job, total), keys.last()) == task_affected(
            scene,
            reqs,
            keys.last(),
        ));
    }
}

/// Jobs share out the tasks of a run: where tasks are left for every job, each job takes as
/// many as the others, from where the one before it ended, and all jobs together take every
/// task once and in order. There is no other job.
pub proof fn jobs_share_out_all_tasks(
    scene: SceneView,
    keys: Seq<TaskKeyView>,
    reqs: RunRequirements,
    total: usize,
)
    requires
        keys.len() <= usize::MAX,
        enough_for(shared_out(scene, keys, reqs).len(), total as nat),
    ensures
        ({
            let tasks = shared_out(scene, keys, reqs);
            let size = part_size(tasks.len(), total as nat);
            &&& forall|job: usize|
                job < total ==> #[trigger] tasks_to_run(scene, keys, for_job(reqs, job, total))
                    == Ok::<(Seq<TaskKeyView>, Option<usize>), ActionGraphFault>(
                    (job_part(tasks, job as nat, total as nat), Some(size as usize)),
                )
            &&& size <= usize::MAX
            &&& parts_together(tasks, total as nat, total as nat) == tasks
        }),
        forall|job: usize|
            job >= total ==> #[trigger] tasks_to_run(scene, keys, for_job(reqs, job, total))
                == Err::<(Seq<TaskKeyView>, Option<usize>), ActionGraphFault>(
                ActionGraphFault::InvalidJobIndex { index: job, total },
            ),
{
    let tasks = shared_out(scene, keys, reqs);
    size_covers(tasks.len(), total as nat);
    affected_for_every_job(scene, keys, reqs, 0, total);
    assert forall|job: usize| job < total implies #[trigger] tasks_to_run(
        scene,
        keys,
        for_job(reqs, job, total),
    ) == Ok::<(Seq<TaskKeyView>, Option<usize>), ActionGraphFault>(
        (
            job_part(tasks, job as nat, total as nat),
            Some(part_size(tasks.len(), total as nat) as usize),
        ),
    ) by {
        affected_for_every_job(scene, keys, reqs, job, total);
        jobs_take_their_part(tasks, job as nat, total as nat);
    }
    first_parts(tasks, total as nat, total as nat);
    assert(tasks.take(tasks.len() as int) =~= tasks);
}

/// The action that the run of one of several tasks gave, where it gave one.
pub open spec fn action_given(
    scene: SceneView,
    state: StateView,
    keys: Seq<TaskKeyView>,
    reqs: RunRequirements,
    i: int,
) -> Option<usize> {
    let before = run_primary_all(scene, state, keys.take(i), reqs).0;
    match run_primary_step(scene, before, keys[i], reqs).1 {
        Ok(found) => found,
        Err(_) => None,
    }
}

/// The tasks that run are exactly those that an action was given for, each under the number
/// of an action that runs it.
pub open spec fn targets_are_given(
    scene: SceneView,
    state: StateView,
    keys: Seq<TaskKeyView>,
    reqs: RunRequirements,
    after: StateView,
    targets: Targets,
) -> bool {
    &&& forall|i: int|
        0 <= i < keys.len() && (#[trigger] action_given(scene, state, keys, reqs, i)) is Some
            ==> targets.dom().contains(action_given(scene, state, keys, reqs, i)->0)
            && targets[action_given(scene, state, keys, reqs, i)->0] == keys[i]
    &&& forall|index: usize| #[trigger]
        targets.dom().contains(index) ==> exists|i: int|
            0 <= i < keys.len() && #[trigger] action_given(scene, state, keys, reqs, i) == Some(
                index,
            ) && keys[i] == targets[index]
    &&& forall|index: usize| #[trigger]
        targets.dom().contains(index) ==> index < after.nodes.len() && after.nodes[index as int]
            == run_node(
            ready_task(scene, targets[index])->Ok_0,
            targets[index],
            reqs,
            plain_call(),
        )
}

/// Runs of tasks, one after the other, give exactly the tasks for which an action was given:
/// none takes the place of another.
pub proof fn runs_give_their_tasks(
    scene: SceneView,
    state: StateView,
    keys: Seq<TaskKeyView>,
    reqs: RunRequirements,
)
    requires
        state.nodes.len() <= u32::MAX,
        run_primary_all(scene, state, keys, reqs).1 is Ok,
    ensures
        ({
            let (after, targets) = run_primary_all(scene, state, keys, reqs);
            &&& after.nodes.len() <= u32::MAX
            &&& targets_are_given(scene, state, keys, reqs, after, targets->Ok_0)
        }),
    decreases keys.len(),
{
    if keys.len() > 0 {
        let rest = keys.drop_last();
        let key = keys.last();
        let last = keys.len() - 1;
        runs_give_their_tasks(scene, state, rest, reqs);
        let (before, targets) = run_primary_all(scene, state, rest, reqs);
        let targets = targets->Ok_0;
        let (after, found) = run_primary_step(scene, before, key, reqs);
        let all = run_primary_all(scene, state, keys, reqs).1->Ok_0;
        run_task_keeps(scene, before, key, reqs, plain_call(), 0, false);
        assert(keys.take(last) =~= rest);
        assert(action_given(scene, state, keys, reqs, last) == found->Ok_0);
        assert forall|i: int| 0 <= i < last implies #[trigger] action_given(
            scene,
            state,
            keys,
            reqs,
            i,
        ) == action_given(scene, state, rest, reqs, i) by {
            assert(keys.take(i) =~= rest.take(i));
        }
        if let Some(index) = found->Ok_0 {
            let node = run_node(ready_task(scene, key)->Ok_0, key, reqs, plain_call());
            a_place_is_given(scene, before, key, reqs, plain_call(), 0, false);
            place_is_first(after.nodes, node);
            assert(after.nodes[index as int] == node);
            if targets.dom().contains(index) {
                assert(before.nodes[index as int] == after.nodes[index as int]);
                assert(targets[index] == key);
            }
        }
        assert forall|index: usize| #[trigger] all.dom().contains(index) implies exists|i: int|
            0 <= i < keys.len() && #[trigger] action_given(scene, state, keys, reqs, i) == Some(
                index,
            ) && keys[i] == all[index] by {
            if found->Ok_0 == Some(index) {
                assert(action_given(scene, state, keys, reqs, last) == Some(index));
            } else {
                let i = choose|i: int|
                    0 <= i < rest.len() && #[trigger] action_given(scene, state, rest, reqs, i)
                        == Some(index) && rest[i] == targets[index];
                assert(action_given(scene, state, keys, reqs, i) == Some(index));
            }
        }
        assert forall|i: int|
            0 <= i < keys.len() && (#[trigger] action_given(
                scene,
                state,
                keys,
                reqs,
                i,
            )) is Some implies all.dom().contains(action_given(scene, state, keys, reqs, i)->0)
            && all[action_given(scene, state, keys, reqs, i)->0] == keys[i] by {
            if i < last {
                assert(action_given(scene, state, rest, reqs, i) is Some);
            }
        }
    }
}

/// A job that does not fail says how many tasks every job takes, and runs exactly those tasks
/// of its part for which an action was given.
pub proof fn jobs_run_their_part(
    scene: SceneView,
    state: StateView,
    keys: Seq<TaskKeyView>,
    reqs: RunRequirements,
    job: usize,
    total: usize,
)
    requires
        keys.len() <= usize::MAX,
        state.nodes.len() <= u32::MAX,
        job < total,
        enough_for(shared_out(scene, keys, reqs).len(), total as nat),
        run_tasks_step(scene, state, keys, for_job(reqs, job, total)).1 is Ok,
    ensures
        ({
            let tasks = shared_out(scene, keys, reqs);
            let (after, partition) = run_tasks_step(scene, state, keys, for_job(reqs, job, total));
            &&& partition->Ok_0.size == Some(part_size(tasks.len(), total as nat) as usize)
            &&& targets_are_given(
                scene,
                state,
                job_part(tasks, job as nat, total as nat),
                for_job(reqs, job, total),
                after,
                partition->Ok_0.targets,
            )
        }),
{
    jobs_share_out_all_tasks(scene, keys, reqs, total);
    let tasks = shared_out(scene, keys, reqs);
    assert(tasks_to_run(scene, keys, for_job(reqs, job, total)) is Ok);
    runs_give_their_tasks(
        scene,
        state,
        job_part(tasks, job as nat, total as nat),
        for_job(reqs, job, total),
    );
}

} // verus!
