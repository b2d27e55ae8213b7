use vstd::prelude::*;
use crate::config::spec_find_delay;
use crate::server::{
    ServerModel, inv, has_pending_for, lemma_remove_job_id_no_match, lemma_remove_job_id_single,
    lemma_remove_path_no_match, lemma_remove_path_single, spec_on_event, spec_on_fired,
};

verus! {

/// One step of the dispatcher's life concerning a single path: a change
/// event whose hold succeeded, or the scheduler running a commit job's
/// body.
pub enum StepModel {
    Change { at_ms: u64 },
    Fire { job_id: u64, at_ms: u64 },
}

pub open spec fn step_at(s: StepModel) -> u64 {
    match s {
        StepModel::Change { at_ms } => at_ms,
        StepModel::Fire { at_ms, .. } => at_ms,
    }
}

/// The dispatcher state after driving `steps` for path `p` from `m`.
pub open spec fn run_steps(m: ServerModel, p: Seq<char>, steps: Seq<StepModel>) -> ServerModel
    decreases steps.len(),
{
    if steps.len() == 0 {
        m
    } else {
        let prev = run_steps(m, p, steps.drop_last());
        match steps.last() {
            StepModel::Change { at_ms } => spec_on_event(prev, p, true, at_ms),
            StepModel::Fire { job_id, at_ms } => spec_on_fired(prev, job_id, p, at_ms),
        }
    }
}

/// The scheduler's contract (best-effort, pre-execution cancellation): a
/// job body runs only if its job is still pending — not cancelled — and its
/// fire time has been reached.
pub open spec fn fires_faithful(m: ServerModel, p: Seq<char>, steps: Seq<StepModel>) -> bool
    decreases steps.len(),
{
    if steps.len() == 0 {
        true
    } else {
        let prev = run_steps(m, p, steps.drop_last());
        fires_faithful(m, p, steps.drop_last()) && match steps.last() {
            StepModel::Change { .. } => true,
            StepModel::Fire { job_id, at_ms } => exists|i: int|
                0 <= i < prev.pending.len() && prev.pending[i].job_id == job_id
                    && prev.pending[i].path == p && prev.pending[i].fire_at_ms <= at_ms,
        }
    }
}

/// Steps are observed in arrival order.
pub open spec fn times_monotone(steps: Seq<StepModel>) -> bool {
    forall|i: int, j: int|
        0 <= i < j < steps.len() ==> step_at(steps[i]) <= step_at(steps[j])
}

pub open spec fn count_fires(steps: Seq<StepModel>) -> nat
    decreases steps.len(),
{
    if steps.len() == 0 {
        0
    } else {
        count_fires(steps.drop_last()) + if steps.last() is Fire {
            1nat
        } else {
            0nat
        }
    }
}

pub open spec fn count_changes(steps: Seq<StepModel>) -> nat
    decreases steps.len(),
{
    if steps.len() == 0 {
        0
    } else {
        count_changes(steps.drop_last()) + if steps.last() is Change {
            1nat
        } else {
            0nat
        }
    }
}

/// The time of the latest change event among `steps` (zero when none).
pub open spec fn last_change_at(steps: Seq<StepModel>) -> u64
    decreases steps.len(),
{
    if steps.len() == 0 {
        0
    } else if steps.last() is Change {
        step_at(steps.last())
    } else {
        last_change_at(steps.drop_last())
    }
}

/// One event step keeps the dispatcher invariant, leaves commits and the
/// configuration set alone, and every job it leaves pending is either an
/// already-pending one or the single fresh one.
pub proof fn lemma_on_event_preserves_inv(m: ServerModel, p: Seq<char>, ok: bool, now: u64)
    requires
        inv(m),
        m.next_job_id < u64::MAX,
    ensures
        ({
            let m2 = spec_on_event(m, p, ok, now);
            &&& inv(m2)
            &&& m2.configurations == m.configurations
            &&& m2.committed == m.committed
            &&& m.next_job_id <= m2.next_job_id <= m.next_job_id + 1
            &&& forall|k: int|
                #![trigger m2.pending[k]]
                0 <= k < m2.pending.len() ==> m2.pending[k].job_id == m.next_job_id || (exists|j: int|
                    0 <= j < m.pending.len() && m.pending[j] == m2.pending[k])
        }),
{
    let m2 = spec_on_event(m, p, ok, now);
    if ok && spec_find_delay(m.configurations, p) is Some {
        if has_pending_for(m, p) {
            let i = choose|i: int| 0 <= i < m.pending.len() && m.pending[i].path == p;
            assert(forall|j: int|
                0 <= j < m.pending.len() && j != i ==> m.pending[j].path != p);
            lemma_remove_path_single(m.pending, p, i);
            assert(forall|k: int|
                0 <= k < m.pending.remove(i).len() ==> m.pending.remove(i)[k] == (if k < i {
                    m.pending[k]
                } else {
                    m.pending[k + 1]
                }));
        } else {
            assert(forall|j: int| 0 <= j < m.pending.len() ==> m.pending[j].path != p);
            lemma_remove_path_no_match(m.pending, p);
        }
    }
}

/// One fired job keeps the dispatcher invariant, appends exactly its commit,
/// and every job it leaves pending was pending before.
pub proof fn lemma_on_fired_preserves_inv(m: ServerModel, job_id: u64, p: Seq<char>, now: u64)
    requires
        inv(m),
    ensures
        ({
            let m2 = spec_on_fired(m, job_id, p, now);
            &&& inv(m2)
            &&& m2.configurations == m.configurations
            &&& m2.next_job_id == m.next_job_id
            &&& m2.committed == m.committed.push(crate::server::CommitModel { path: p, at_ms: now })
            &&& forall|k: int|
                #![trigger m2.pending[k]]
                0 <= k < m2.pending.len() ==> exists|j: int|
                    0 <= j < m.pending.len() && m.pending[j] == m2.pending[k]
            &&& ((exists|i: int| 0 <= i < m.pending.len() && m.pending[i].job_id == job_id)
                ==> forall|k: int| 0 <= k < m2.pending.len() ==> m2.pending[k].job_id != job_id)
        }),
{
    let m2 = spec_on_fired(m, job_id, p, now);
    if exists|i: int| 0 <= i < m.pending.len() && m.pending[i].job_id == job_id {
        let i = choose|i: int| 0 <= i < m.pending.len() && m.pending[i].job_id == job_id;
        assert(forall|j: int|
            0 <= j < m.pending.len() && j != i ==> m.pending[j].job_id != job_id);
        lemma_remove_job_id_single(m.pending, job_id, i);
        assert(forall|k: int|
            0 <= k < m.pending.remove(i).len() ==> m.pending.remove(i)[k] == (if k < i {
                m.pending[k]
            } else {
                m.pending[k + 1]
            }));
    } else {
        assert(forall|j: int| 0 <= j < m.pending.len() ==> m.pending[j].job_id != job_id);
        lemma_remove_job_id_no_match(m.pending, job_id);
    }
}

/// Coalescing: take any burst of change events on one path, all of whose
/// holds succeed and whose times fall inside a window `[t0, t0 + d)`
/// shorter than the path's commit delay `d`, interleaved in arrival order
/// with any scheduler activity that honours cancellation (a job body runs
/// only while its job is pending and only at or after its fire time).
/// Then at most one commit reaches execution across the whole run; while
/// none has, exactly one job for the path is pending, due at the last
/// change plus the delay; and once one has, no job for the path remains and
/// every commit that ran did so only after the quiet period following the
/// last change event.
pub proof fn lemma_burst_coalescing(
    m0: ServerModel,
    p: Seq<char>,
    steps: Seq<StepModel>,
    t0: u64,
    d: u64,
)
    requires
        inv(m0),
        !has_pending_for(m0, p),
        spec_find_delay(m0.configurations, p) == Some(d),
        d >= 1,
        times_monotone(steps),
        forall|i: int|
            0 <= i < steps.len() && steps[i] is Change ==> t0 <= step_at(steps[i]) < t0 + d,
        forall|i: int|
            0 <= i < steps.len() && steps[i] is Change ==> step_at(steps[i]) + d <= u64::MAX,
        m0.next_job_id + count_changes(steps) <= u64::MAX,
        fires_faithful(m0, p, steps),
    ensures
        ({
            let m = run_steps(m0, p, steps);
            let f = count_fires(steps);
            let c = count_changes(steps);
            &&& inv(m)
            &&& m.configurations == m0.configurations
            &&& m0.next_job_id <= m.next_job_id <= m0.next_job_id + c
            &&& f <= 1
            &&& m.committed.len() == m0.committed.len() + f
            &&& (f == 0 ==> m.committed == m0.committed)
            &&& forall|k: int|
                m0.committed.len() <= k < m.committed.len() ==> m.committed[k].path == p
                    && m.committed[k].at_ms >= t0 + d && m.committed[k].at_ms >= last_change_at(
                    steps,
                ) + d
            &&& (f == 1 ==> c >= 1 && !has_pending_for(m, p) && (exists|k: int|
                0 <= k < steps.len() && steps[k] is Fire && step_at(steps[k]) >= t0 + d))
            &&& (f == 0 && c == 0 ==> m.pending == m0.pending)
            &&& (f == 0 && c >= 1 ==> t0 <= last_change_at(steps) < t0 + d && (exists|i: int|
                0 <= i < m.pending.len() && m.pending[i].path == p && m.pending[i].fire_at_ms
                    == last_change_at(steps) + d))
        }),
    decreases steps.len(),
{
    if steps.len() == 0 {
    } else {
        let prefix = steps.drop_last();
        let prev = run_steps(m0, p, prefix);
        assert(forall|i: int| 0 <= i < prefix.len() ==> prefix[i] == steps[i]);
        lemma_burst_coalescing(m0, p, prefix, t0, d);
        let m = run_steps(m0, p, steps);
        let f0 = count_fires(prefix);
        let c0 = count_changes(prefix);
        match steps.last() {
            StepModel::Change { at_ms } => {
                assert(steps[steps.len() - 1] is Change);
                assert(t0 <= at_ms < t0 + d);
                if f0 == 1 {
                    // a fire already happened at or after t0 + d, and this
                    // change arrives no earlier — contradiction with the window
                    let k = choose|k: int|
                        0 <= k < prefix.len() && prefix[k] is Fire && step_at(prefix[k]) >= t0 + d;
                    assert(step_at(steps[k]) <= step_at(steps[steps.len() - 1]));
                    assert(false);
                }
                assert(prev.next_job_id < u64::MAX);
                lemma_on_event_preserves_inv(prev, p, true, at_ms);
                assert(spec_find_delay(prev.configurations, p) == Some(d));
                if c0 == 0 {
                    assert(prev.pending == m0.pending);
                    assert(forall|j: int| 0 <= j < prev.pending.len() ==> prev.pending[j].path != p);
                    lemma_remove_path_no_match(prev.pending, p);
                } else {
                    let i = choose|i: int|
                        0 <= i < prev.pending.len() && prev.pending[i].path == p
                            && prev.pending[i].fire_at_ms == last_change_at(prefix) + d;
                    assert(forall|j: int|
                        0 <= j < prev.pending.len() && j != i ==> prev.pending[j].path != p);
                    lemma_remove_path_single(prev.pending, p, i);
                }
                let new_job = m.pending.last();
                assert(new_job.path == p && new_job.fire_at_ms == at_ms + d);
                assert(last_change_at(steps) == at_ms);
                assert(m.pending[m.pending.len() - 1] == new_job);
            },
            StepModel::Fire { job_id, at_ms } => {
                assert(steps[steps.len() - 1] is Fire);
                let w = choose|i: int|
                    0 <= i < prev.pending.len() && prev.pending[i].job_id == job_id
                        && prev.pending[i].path == p && prev.pending[i].fire_at_ms <= at_ms;
                if f0 == 1 {
                    // no job for the path is pending once the commit ran
                    assert(!has_pending_for(prev, p));
                    assert(prev.pending[w].path == p);
                    assert(false);
                }
                if c0 == 0 {
                    assert(prev.pending == m0.pending);
                    assert(has_pending_for(m0, p));
                    assert(false);
                }
                // the pending job for the path is the one from the latest change
                let i = choose|i: int|
                    0 <= i < prev.pending.len() && prev.pending[i].path == p
                        && prev.pending[i].fire_at_ms == last_change_at(prefix) + d;
                assert(w == i);
                assert(at_ms >= last_change_at(prefix) + d);
                assert(last_change_at(steps) == last_change_at(prefix));
                lemma_on_fired_preserves_inv(prev, job_id, p, at_ms);
                // removal kills the only pending job for the path
                assert(forall|k: int|
                    0 <= k < m.pending.len() ==> m.pending[k].job_id != job_id);
                assert forall|k: int| 0 <= k < m.pending.len() implies m.pending[k].path != p by {
                    let j = choose|j: int|
                        0 <= j < prev.pending.len() && prev.pending[j] == m.pending[k];
                    if prev.pending[j].path == p {
                        assert(j == i);
                    }
                }
                assert(!has_pending_for(m, p));
                assert(count_fires(steps) == 1);
                assert(step_at(steps[steps.len() - 1]) >= t0 + d);
                assert(m.committed.len() == m0.committed.len() + 1);
                assert(m.committed[m.committed.len() - 1].path == p);
                assert(forall|k: int|
                    m0.committed.len() <= k < m.committed.len() - 1 ==> m.committed[k]
                        == prev.committed[k]);
            },
        }
    }
}

/// A job cancelled strictly before its fire time never runs: once its key
/// has left the pending map, no faithful scheduler step can carry it again,
/// because fresh jobs always take fresh keys. (Cancelling a job whose body
/// has already started is the documented no-op: such a run simply contains
/// the job's fire step before the cancellation.)
pub proof fn lemma_cancelled_job_never_fires(
    m0: ServerModel,
    p: Seq<char>,
    steps: Seq<StepModel>,
    job_id: u64,
)
    requires
        inv(m0),
        forall|i: int| 0 <= i < m0.pending.len() ==> m0.pending[i].job_id != job_id,
        job_id < m0.next_job_id,
        m0.next_job_id + count_changes(steps) <= u64::MAX,
        fires_faithful(m0, p, steps),
    ensures
        ({
            let m = run_steps(m0, p, steps);
            &&& inv(m)
            &&& m0.next_job_id <= m.next_job_id <= m0.next_job_id + count_changes(steps)
            &&& forall|i: int| 0 <= i < m.pending.len() ==> m.pending[i].job_id != job_id
            &&& forall|k: int|
                #![trigger steps[k]]
                0 <= k < steps.len() ==> !(steps[k] matches StepModel::Fire { job_id: jid, .. }
                    && jid == job_id)
        }),
    decreases steps.len(),
{
    if steps.len() > 0 {
        let prefix = steps.drop_last();
        let prev = run_steps(m0, p, prefix);
        assert(forall|i: int| 0 <= i < prefix.len() ==> prefix[i] == steps[i]);
        lemma_cancelled_job_never_fires(m0, p, prefix, job_id);
        match steps.last() {
            StepModel::Change { at_ms } => {
                assert(prev.next_job_id < u64::MAX);
                lemma_on_event_preserves_inv(prev, p, true, at_ms);
                let m = run_steps(m0, p, steps);
                assert forall|i: int| 0 <= i < m.pending.len() implies m.pending[i].job_id
                    != job_id by {
                    if m.pending[i].job_id == prev.next_job_id {
                        assert(prev.next_job_id > job_id);
                    } else {
                        let j = choose|j: int|
                            0 <= j < prev.pending.len() && prev.pending[j] == m.pending[i];
                    }
                }
            },
            StepModel::Fire { job_id: jid, at_ms } => {
                let w = choose|i: int|
                    0 <= i < prev.pending.len() && prev.pending[i].job_id == jid
                        && prev.pending[i].path == p && prev.pending[i].fire_at_ms <= at_ms;
                assert(jid != job_id);
                lemma_on_fired_preserves_inv(prev, jid, p, at_ms);
                let m = run_steps(m0, p, steps);
                assert forall|i: int| 0 <= i < m.pending.len() implies m.pending[i].job_id
                    != job_id by {
                    let j = choose|j: int|
                        0 <= j < prev.pending.len() && prev.pending[j] == m.pending[i];
                }
            },
        }
    }
}

} // verus!
