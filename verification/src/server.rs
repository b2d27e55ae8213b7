use vstd::prelude::*;
use crate::config::{Configuration, find_delay, spec_find_delay};
use crate::context::{BackupContext, SourceProbe, spec_hold_ok, spec_hold_result};
use crate::errors::BackupError;

verus! {

/// A commit job that has been scheduled and has not fired: the handle key
/// the application holds for it, the path it will commit for, and the
/// instant it is due.
pub struct PendingJob {
    pub job_id: u64,
    pub path: String,
    pub fire_at_ms: u64,
}

/// The image of a pending job in the dispatcher's model.
pub struct JobModel {
    pub job_id: u64,
    pub path: Seq<char>,
    pub fire_at_ms: u64,
}

/// A commit that reached execution, in the dispatcher's model.
pub struct CommitModel {
    pub path: Seq<char>,
    pub at_ms: u64,
}

/// The dispatcher's model: the immutable configuration set, the pending
/// commit jobs, the next fresh job key, and the commits that have reached
/// execution.
pub struct ServerModel {
    pub configurations: Seq<Configuration>,
    pub pending: Seq<JobModel>,
    pub next_job_id: u64,
    pub committed: Seq<CommitModel>,
}

impl PendingJob {
    pub open spec fn model(self) -> JobModel {
        JobModel { job_id: self.job_id, path: self.path@, fire_at_ms: self.fire_at_ms }
    }
}

/// The dispatcher invariant: at most one live pending job per path, handle
/// keys pairwise distinct and all below the next fresh one.
pub open spec fn inv(m: ServerModel) -> bool {
    &&& forall|i: int, j: int|
        0 <= i < j < m.pending.len() ==> m.pending[i].path != m.pending[j].path
    &&& forall|i: int, j: int|
        0 <= i < j < m.pending.len() ==> m.pending[i].job_id != m.pending[j].job_id
    &&& forall|i: int| 0 <= i < m.pending.len() ==> m.pending[i].job_id < m.next_job_id
}

/// Whether some job for `p` is pending.
pub open spec fn has_pending_for(m: ServerModel, p: Seq<char>) -> bool {
    exists|i: int| 0 <= i < m.pending.len() && m.pending[i].path == p
}

/// The pending jobs with every job for `p` removed, order kept.
pub open spec fn remove_path(s: Seq<JobModel>, p: Seq<char>) -> Seq<JobModel>
    decreases s.len(),
{
    if s.len() == 0 {
        s
    } else if s[0].path == p {
        remove_path(s.drop_first(), p)
    } else {
        seq![s[0]] + remove_path(s.drop_first(), p)
    }
}

/// The pending jobs with the job keyed `job_id` removed, order kept.
pub open spec fn remove_job_id(s: Seq<JobModel>, job_id: u64) -> Seq<JobModel>
    decreases s.len(),
{
    if s.len() == 0 {
        s
    } else if s[0].job_id == job_id {
        remove_job_id(s.drop_first(), job_id)
    } else {
        seq![s[0]] + remove_job_id(s.drop_first(), job_id)
    }
}

/// When nothing matches, removal changes nothing.
pub proof fn lemma_remove_path_no_match(s: Seq<JobModel>, p: Seq<char>)
    requires
        forall|j: int| 0 <= j < s.len() ==> s[j].path != p,
    ensures
        remove_path(s, p) == s,
    decreases s.len(),
{
    if s.len() > 0 {
        assert(forall|j: int|
            0 <= j < s.drop_first().len() ==> s.drop_first()[j] == s[j + 1]);
        lemma_remove_path_no_match(s.drop_first(), p);
        assert(seq![s[0]] + s.drop_first() =~= s);
    }
}

/// When exactly one entry matches, removal is removal of that entry.
pub proof fn lemma_remove_path_single(s: Seq<JobModel>, p: Seq<char>, i: int)
    requires
        0 <= i < s.len(),
        s[i].path == p,
        forall|j: int| 0 <= j < s.len() && j != i ==> s[j].path != p,
    ensures
        remove_path(s, p) == s.remove(i),
    decreases s.len(),
{
    assert(forall|j: int| 0 <= j < s.drop_first().len() ==> s.drop_first()[j] == s[j + 1]);
    if i == 0 {
        lemma_remove_path_no_match(s.drop_first(), p);
        assert(s.remove(0) =~= s.drop_first());
    } else {
        lemma_remove_path_single(s.drop_first(), p, i - 1);
        assert(seq![s[0]] + s.drop_first().remove(i - 1) =~= s.remove(i));
    }
}

/// When nothing carries the key, removal changes nothing.
pub proof fn lemma_remove_job_id_no_match(s: Seq<JobModel>, job_id: u64)
    requires
        forall|j: int| 0 <= j < s.len() ==> s[j].job_id != job_id,
    ensures
        remove_job_id(s, job_id) == s,
    decreases s.len(),
{
    if s.len() > 0 {
        assert(forall|j: int|
            0 <= j < s.drop_first().len() ==> s.drop_first()[j] == s[j + 1]);
        lemma_remove_job_id_no_match(s.drop_first(), job_id);
        assert(seq![s[0]] + s.drop_first() =~= s);
    }
}

/// When exactly one entry carries the key, removal is removal of that entry.
pub proof fn lemma_remove_job_id_single(s: Seq<JobModel>, job_id: u64, i: int)
    requires
        0 <= i < s.len(),
        s[i].job_id == job_id,
        forall|j: int| 0 <= j < s.len() && j != i ==> s[j].job_id != job_id,
    ensures
        remove_job_id(s, job_id) == s.remove(i),
    decreases s.len(),
{
    assert(forall|j: int| 0 <= j < s.drop_first().len() ==> s.drop_first()[j] == s[j + 1]);
    if i == 0 {
        lemma_remove_job_id_no_match(s.drop_first(), job_id);
        assert(s.remove(0) =~= s.drop_first());
    } else {
        lemma_remove_job_id_single(s.drop_first(), job_id, i - 1);
        assert(seq![s[0]] + s.drop_first().remove(i - 1) =~= s.remove(i));
    }
}

/// One incoming change event for a path, §4.6 style: a failed hold takes no
/// further action; a successful one supersedes any pending job for the path
/// and schedules a fresh one with the covering configuration's delay. A path
/// no configuration covers schedules nothing.
pub open spec fn spec_on_event(m: ServerModel, p: Seq<char>, hold_ok: bool, now_ms: u64) -> ServerModel {
    if !hold_ok {
        m
    } else {
        match spec_find_delay(m.configurations, p) {
            None => m,
            Some(d) => ServerModel {
                pending: remove_path(m.pending, p).push(
                    JobModel {
                        job_id: m.next_job_id,
                        path: p,
                        fire_at_ms: (now_ms + d) as u64,
                    },
                ),
                next_job_id: (m.next_job_id + 1) as u64,
                ..m
            },
        }
    }
}

/// A commit job's body reached execution: the commit runs (whatever its
/// subprocess outcome), and the job's own map entry is removed, so that a
/// later event can schedule freshly. A stale key (already superseded by a
/// newer job for the same path) removes nothing beyond recording the commit.
pub open spec fn spec_on_fired(m: ServerModel, job_id: u64, p: Seq<char>, now_ms: u64) -> ServerModel {
    ServerModel {
        pending: remove_job_id(m.pending, job_id),
        committed: m.committed.push(CommitModel { path: p, at_ms: now_ms }),
        ..m
    }
}

/// What the dispatcher asks of the application after one event: the hold
/// verdict to log, the superseded job to cancel (best effort), and the fresh
/// job to hand to the timer pool.
pub struct ScheduledCommit {
    pub job_id: u64,
    pub delay_ms: u64,
    pub fire_at_ms: u64,
}

pub struct DispatchOutcome {
    pub hold_result: Result<(), BackupError>,
    pub cancelled_job: Option<u64>,
    pub scheduled: Option<ScheduledCommit>,
}

/// The position of the pending job for `path`, if one is live.
fn find_pending_index(jobs: &Vec<PendingJob>, path: &String) -> (r: Option<usize>)
    ensures
        match r {
            Some(i) => i < jobs@.len() && jobs@[i as int].path@ == path@,
            None => forall|j: int| 0 <= j < jobs@.len() ==> jobs@[j].path@ != path@,
        },
{
    let n = jobs.len();
    let mut i: usize = 0;
    while i < n
        invariant
            i <= n,
            n == jobs@.len(),
            forall|j: int| 0 <= j < i ==> jobs@[j].path@ != path@,
        decreases n - i,
    {
        if jobs[i].path == *path {
            return Some(i);
        }
        i = i + 1;
    }
    None
}

/// The position of the pending job with handle key `job_id`, if it is live.
fn find_job_index(jobs: &Vec<PendingJob>, job_id: u64) -> (r: Option<usize>)
    ensures
        match r {
            Some(i) => i < jobs@.len() && jobs@[i as int].job_id == job_id,
            None => forall|j: int| 0 <= j < jobs@.len() ==> jobs@[j].job_id != job_id,
        },
{
    let n = jobs.len();
    let mut i: usize = 0;
    while i < n
        invariant
            i <= n,
            n == jobs@.len(),
            forall|j: int| 0 <= j < i ==> jobs@[j].job_id != job_id,
        decreases n - i,
    {
        if jobs[i].job_id == job_id {
            return Some(i);
        }
        i = i + 1;
    }
    None
}

/// The dispatcher: owns the coordinator and the pending-job map, and turns
/// each incoming change event into hold-then-cancel-then-reschedule. The
/// commits that reached execution are tracked in the model alone.
pub struct BackupServer {
    context: BackupContext,
    pending_jobs: Vec<PendingJob>,
    next_job_id: u64,
    committed: Ghost<Seq<CommitModel>>,
}

impl BackupServer {
    /// The dispatcher's model.
    pub closed spec fn model(self) -> ServerModel {
        ServerModel {
            configurations: self.context.configs(),
            pending: self.pending_jobs@.map_values(|j: PendingJob| j.model()),
            next_job_id: self.next_job_id,
            committed: self.committed@,
        }
    }

    /// The coordinator the dispatcher owns.
    pub closed spec fn ctx(self) -> BackupContext {
        self.context
    }

    pub open spec fn wf(self) -> bool {
        &&& self.ctx().wf()
        &&& inv(self.model())
    }

    /// The model's pending jobs are the images of the live entries.
    proof fn lemma_model_pending(self)
        ensures
            self.model().pending.len() == self.pending_jobs@.len(),
            forall|j: int|
                0 <= j < self.pending_jobs@.len() ==> self.model().pending[j]
                    == self.pending_jobs@[j].model(),
    {
    }

    pub fn new(context: BackupContext) -> (r: Self)
        requires
            context.wf(),
        ensures
            r.wf(),
            r.ctx() == context,
            r.model().configurations == context.configs(),
            r.model().pending == Seq::<JobModel>::empty(),
            r.model().next_job_id == 0,
            r.model().committed == Seq::<CommitModel>::empty(),
    {
        let r = BackupServer {
            context,
            pending_jobs: Vec::new(),
            next_job_id: 0,
            committed: Ghost(Seq::empty()),
        };
        proof {
            assert(r.model().pending =~= Seq::<JobModel>::empty());
        }
        r
    }

    /// The coordinator, for status readers and for the job bodies.
    pub fn get_context(&self) -> (r: &BackupContext)
        ensures
            *r == self.ctx(),
    {
        &self.context
    }

    /// How many commit jobs are pending.
    pub fn pending_count(&self) -> (n: usize)
        ensures
            n == self.model().pending.len(),
    {
        self.pending_jobs.len()
    }

    /// The pending job for `path`, if one is live: its handle key and due
    /// instant.
    pub fn pending_for(&self, path: &String) -> (r: Option<(u64, u64)>)
        requires
            self.wf(),
        ensures
            match r {
                Some(j) => exists|i: int|
                    0 <= i < self.model().pending.len() && self.model().pending[i]
                        == (JobModel { job_id: j.0, path: path@, fire_at_ms: j.1 }),
                None => !has_pending_for(self.model(), path@),
            },
    {
        let n = self.pending_jobs.len();
        let mut i: usize = 0;
        while i < n
            invariant
                i <= n,
                n == self.pending_jobs@.len(),
                self.wf(),
                forall|j: int| 0 <= j < i ==> self.pending_jobs@[j].path@ != path@,
            decreases n - i,
        {
            if self.pending_jobs[i].path == *path {
                let e = &self.pending_jobs[i];
                proof {
                    assert(self.model().pending[i as int] == self.pending_jobs@[i as int].model());
                }
                return Some((e.job_id, e.fire_at_ms));
            }
            i = i + 1;
        }
        proof {
            assert(forall|j: int|
                0 <= j < self.model().pending.len() ==> self.model().pending[j]
                    == self.pending_jobs@[j].model());
        }
        None
    }

    /// The commit delay that applies to a change at `path`, if any
    /// configuration covers it.
    pub fn find_commit_delay(&self, path: &String) -> (r: Option<u64>)
        ensures
            r == spec_find_delay(self.model().configurations, path@),
    {
        find_delay(self.context.configurations(), path)
    }

    /// Dispatch one change event: call the coordinator's hold with what the
    /// application observed, and on success supersede the path's pending
    /// job and schedule a fresh one. On a failed hold nothing is cancelled
    /// and nothing is scheduled, so no stale commit job can cover content
    /// that was never captured.
    pub fn on_event(&mut self, path: &String, source: SourceProbe, now_ms: u64) -> (r:
        DispatchOutcome)
        requires
            old(self).wf(),
            old(self).model().next_job_id < u64::MAX,
            spec_find_delay(old(self).model().configurations, path@) matches Some(d) ==> now_ms + d
                <= u64::MAX,
        ensures
            final(self).wf(),
            final(self).model() == spec_on_event(
                old(self).model(),
                path@,
                spec_hold_ok(source, path@),
                now_ms,
            ),
            r.hold_result == spec_hold_result(source, path@),
            final(self).ctx().configs() == old(self).ctx().configs(),
            final(self).ctx().base() == old(self).ctx().base(),
            !spec_hold_ok(source, path@) ==> final(self).ctx() == old(self).ctx(),
            spec_hold_ok(source, path@) ==> final(self).ctx().holding() == old(
                self,
            ).ctx().holding().insert(path@, now_ms),
            match r.cancelled_job {
                Some(id) => spec_hold_ok(source, path@) && spec_find_delay(
                    old(self).model().configurations,
                    path@,
                ) is Some && exists|i: int|
                    0 <= i < old(self).model().pending.len() && old(self).model().pending[i].path
                        == path@ && old(self).model().pending[i].job_id == id,
                None => !(spec_hold_ok(source, path@) && spec_find_delay(
                    old(self).model().configurations,
                    path@,
                ) is Some && has_pending_for(old(self).model(), path@)),
            },
            match r.scheduled {
                Some(sc) => spec_hold_ok(source, path@) && spec_find_delay(
                    old(self).model().configurations,
                    path@,
                ) == Some(sc.delay_ms) && sc.job_id == old(self).model().next_job_id
                    && sc.fire_at_ms == now_ms + sc.delay_ms,
                None => !(spec_hold_ok(source, path@) && spec_find_delay(
                    old(self).model().configurations,
                    path@,
                ) is Some),
            },
    {
        let ghost pre = self.model();
        let hold_result = self.context.hold(path, source, now_ms);
        let mut cancelled: Option<u64> = None;
        let mut scheduled: Option<ScheduledCommit> = None;
        let held = match &hold_result {
            Ok(_) => true,
            Err(_) => false,
        };
        if held {
            match self.find_commit_delay(path) {
                None => {
                    proof {
                        assert(self.model() =~= spec_on_event(
                            pre,
                            path@,
                            spec_hold_ok(source, path@),
                            now_ms,
                        ));
                    }
                },
                Some(d) => {
                    // supersede any pending job for this path
                    let found = find_pending_index(&self.pending_jobs, path);
                    let ghost mid = self.model();
                    if let Some(i) = found {
                        cancelled = Some(self.pending_jobs[i].job_id);
                        proof {
                            self.lemma_model_pending();
                            assert(mid.pending == old(self).model().pending);
                            assert(mid.pending[i as int].path == path@);
                            assert(old(self).model().pending[i as int].job_id
                                == self.pending_jobs@[i as int].job_id);
                            assert(forall|j: int|
                                0 <= j < mid.pending.len() && j != i ==> mid.pending[j].path
                                    != path@);
                            lemma_remove_path_single(mid.pending, path@, i as int);
                        }
                        self.pending_jobs.remove(i);
                        proof {
                            self.lemma_model_pending();
                            assert(self.model().pending =~= mid.pending.remove(i as int));
                        }
                    } else {
                        proof {
                            self.lemma_model_pending();
                            assert(forall|j: int|
                                0 <= j < mid.pending.len() ==> mid.pending[j].path != path@);
                            lemma_remove_path_no_match(mid.pending, path@);
                        }
                    }
                    // schedule the fresh job
                    let id = self.next_job_id;
                    let fire = now_ms + d;
                    self.pending_jobs.push(
                        PendingJob { job_id: id, path: path.clone(), fire_at_ms: fire },
                    );
                    self.next_job_id = id + 1;
                    scheduled = Some(ScheduledCommit { job_id: id, delay_ms: d, fire_at_ms: fire });
                    proof {
                        assert(self.model().pending =~= remove_path(mid.pending, path@).push(
                            JobModel { job_id: id, path: path@, fire_at_ms: fire },
                        ));
                        assert(self.model() =~= spec_on_event(
                            pre,
                            path@,
                            spec_hold_ok(source, path@),
                            now_ms,
                        ));
                    }
                },
            }
        } else {
            proof {
                assert(self.model() =~= spec_on_event(
                    pre,
                    path@,
                    spec_hold_ok(source, path@),
                    now_ms,
                ));
            }
        }
        DispatchOutcome { hold_result, cancelled_job: cancelled, scheduled }
    }

    /// A commit job's body reached execution: record the commit and drop the
    /// job's own map entry. Returns whether the entry was still live — a
    /// stale key means the job had already been superseded while in flight,
    /// the documented race in which its cancel was a no-op.
    pub fn on_job_fired(&mut self, job_id: u64, path: &String, now_ms: u64) -> (r: bool)
        requires
            old(self).wf(),
        ensures
            final(self).wf(),
            final(self).model() == spec_on_fired(old(self).model(), job_id, path@, now_ms),
            final(self).ctx() == old(self).ctx(),
            r == exists|i: int|
                0 <= i < old(self).model().pending.len() && old(self).model().pending[i].job_id
                    == job_id,
    {
        let ghost pre = self.model();
        self.committed = Ghost(self.committed@.push(CommitModel { path: path@, at_ms: now_ms }));
        match find_job_index(&self.pending_jobs, job_id) {
            Some(i) => {
                proof {
                    self.lemma_model_pending();
                    assert(pre.pending[i as int].job_id == job_id);
                    assert(forall|j: int|
                        0 <= j < pre.pending.len() && j != i ==> pre.pending[j].job_id != job_id);
                    lemma_remove_job_id_single(pre.pending, job_id, i as int);
                }
                self.pending_jobs.remove(i);
                proof {
                    self.lemma_model_pending();
                    assert(self.model().pending =~= pre.pending.remove(i as int));
                    assert(self.model() =~= spec_on_fired(pre, job_id, path@, now_ms));
                }
                true
            },
            None => {
                proof {
                    self.lemma_model_pending();
                    assert(forall|j: int|
                        0 <= j < pre.pending.len() ==> pre.pending[j].job_id != job_id);
                    lemma_remove_job_id_no_match(pre.pending, job_id);
                    assert(self.model() =~= spec_on_fired(pre, job_id, path@, now_ms));
                }
                false
            },
        }
    }
}

} // verus!
