//! Many processes at one queue. The model here interleaves the actions of those that queue jobs and
//! of the workers in any order, with job IDs taken in any order too.
//!
//! Of every such history it is a law that a job file is locked, without a gap, until the job's command
//! has run.
//!
//! That two jobs do not run at once, nor the later before the earlier, takes one thing more, which no
//! lock provides, and takes it of these two jobs alone: the earlier one's file does not get its name in
//! the queue directory between the time when the later one's worker has read the directory and the
//! time when that worker has ended. [`cuts_in`] says when it does, and the two laws ask that it does
//! not.
//!
//! A lock belongs to an open file, and lasts as long as a process has that file open. Nothing but
//! what is modelled here removes, renames or locks job files.
use crate::daemon::{
    daemon_next, daemon_steps, law_older_jobs, older_than, wait_or_go, DaemonEventView, DaemonView,
};
use crate::dir::{create_steps, is_listing, listing, Place, StepView};
use crate::enqueue::{file_actions, hand_over, queue_plan, QueueActionView};
use crate::job::{before, job_name, law_name_round_trip, law_temp_names_apart, JobId};
use crate::spool::{law_job_is_listed, lemma_listing};
use crate::wait::{wait_advanced, wait_finished, wait_start, WaitPhase, WaitView};
use vstd::prelude::*;

verus! {

/// The file of a job, as the process that queues the job has opened it.
pub struct JobFile {
    /// Its name in the queue directory, once it is there.
    pub name: Option<Seq<char>>,
    /// Whether it has been locked.
    pub locked: bool,
    /// Whether the process that queues the job has it open.
    pub at_queuer: bool,
    /// Whether processes that this one starts inherit it.
    pub shared: bool,
    /// Whether the worker has it open.
    pub at_worker: bool,
}

/// Whether the file is locked now: it has been locked, and has been open ever since.
pub open spec fn is_locked(file: JobFile) -> bool {
    file.locked && (file.at_queuer || file.at_worker)
}

/// A job, from the time its ID was taken.
pub struct Job {
    /// The command.
    pub args: Seq<Seq<char>>,
    /// Whether the user is to be told its ID.
    pub quiet: bool,
    /// How much the process that queues it has done.
    pub done: nat,
    /// Whether that process has ended.
    pub left: bool,
    /// Its file.
    pub file: JobFile,
    /// What its worker has come to, once it is started.
    pub worker: Option<DaemonView>,
}

/// All jobs that were ever queued.
pub struct System {
    pub jobs: Map<JobId, Job>,
}

/// A job of which no more is there than its ID.
pub open spec fn new_job(args: Seq<Seq<char>>, quiet: bool) -> Job {
    Job {
        args,
        quiet,
        done: 0,
        left: false,
        file: JobFile {
            name: None,
            locked: false,
            at_queuer: false,
            shared: false,
            at_worker: false,
        },
        worker: None,
    }
}

/// What an action of the process that queues it makes of a job.
pub open spec fn after_action(job: Job, action: QueueActionView) -> Job {
    let next = Job { done: job.done + 1, ..job };
    match action {
        QueueActionView::Step(StepView::CreateNew { name }) => Job {
            file: JobFile { name: Some(name), at_queuer: true, ..job.file },
            ..next
        },
        QueueActionView::Step(StepView::LockExclusive) => Job {
            file: JobFile { locked: true, ..job.file },
            ..next
        },
        QueueActionView::Step(StepView::Rename { place: Place::Queue, name, .. }) => Job {
            file: JobFile { name: Some(name), ..job.file },
            ..next
        },
        QueueActionView::ShareFile => Job { file: JobFile { shared: true, ..job.file }, ..next },
        QueueActionView::StartWorker { name } => Job {
            worker: Some(DaemonView::OpenFile { name }),
            file: JobFile { at_worker: job.file.shared, ..job.file },
            ..next
        },
        _ => next,
    }
}

/// Whether a worker has not ended.
pub open spec fn is_alive(d: DaemonView) -> bool {
    !(d is Exit) && !(d is Aborted) && !(d is RunFailed) && !(d is RunCommand)
}

/// Whether a job's worker has been started, as it has been when queueing the job has succeeded.
pub open spec fn is_started(job: Job) -> bool {
    job.worker is Some
}

/// Whether a job's worker has been started and has ended.
pub open spec fn has_ended(job: Job) -> bool {
    job.worker matches Some(d) && !is_alive(d)
}

/// Whether a job's command is running: it has been started, and its end not yet been seen.
pub open spec fn is_running(job: Job) -> bool {
    job.worker matches Some(d) && d is Reap
}

/// Whether the file of the job `id` is in the queue and locked, so that the job is found not done.
pub open spec fn is_pending(s: System, id: JobId) -> bool {
    &&& s.jobs.dom().contains(id)
    &&& s.jobs[id].file.name == Some(job_name(',', id))
    &&& is_locked(s.jobs[id].file)
}

/// Whether the job's file has its name, or will never have it.
pub open spec fn is_placed(job: Job) -> bool {
    job.done >= 3 || job.left
}

/// Whether, in the system `s`, the next action of a worker in the state `d` can have the outcome
/// `e`. The files of pending jobs are in the queue directory, and found to be locked.
pub open spec fn can_happen(s: System, d: DaemonView, e: DaemonEventView) -> bool {
    match d {
        DaemonView::ListQueue { .. } => e matches DaemonEventView::Names(names) && forall|j: JobId|
            #[trigger] is_pending(s, j) ==> names.contains(job_name(',', j)),
        DaemonView::WaitOlder { wait, .. } => e matches DaemonEventView::Answer(yes) && {
            let target = wait.targets[wait.next as int];
            match wait.phase {
                WaitPhase::Open => !yes ==> !is_pending(s, target),
                WaitPhase::Probe => !yes ==> !is_pending(s, target),
                WaitPhase::Block => !is_pending(s, target),
                WaitPhase::Clear => true,
            }
        },
        DaemonView::Fork { .. } => e matches DaemonEventView::Forked(pid) && pid != 0,
        _ => true,
    }
}

/// Whether `t` is `s` with one job more, which has an ID that no other has.
pub open spec fn begins(s: System, t: System, id: JobId, args: Seq<Seq<char>>, quiet: bool) -> bool {
    &&& !s.jobs.dom().contains(id)
    &&& t.jobs == s.jobs.insert(id, new_job(args, quiet))
}

/// Whether `t` is `s` after the process that queues the job `id` has done its next action.
pub open spec fn queues(s: System, t: System, id: JobId) -> bool {
    &&& s.jobs.dom().contains(id)
    &&& {
        let job = s.jobs[id];
        let plan = queue_plan(id, job.args, job.quiet);
        &&& !job.left
        &&& job.done < plan.len()
        &&& t.jobs == s.jobs.insert(id, after_action(job, plan[job.done as int]))
    }
}

/// Whether `t` is `s` after the process that queues the job `id` has ended, be it that all was done or
/// not.
pub open spec fn leaves(s: System, t: System, id: JobId) -> bool {
    &&& s.jobs.dom().contains(id)
    &&& {
        let job = s.jobs[id];
        let file = JobFile { at_queuer: false, ..job.file };
        t.jobs == s.jobs.insert(id, Job { left: true, file, ..job })
    }
}

/// Whether `t` is `s` after the worker of the job `id` has done its next action, with the outcome `e`,
/// and gone on to the state `next`. A worker that has ended has its file no longer open.
pub open spec fn acts(
    s: System,
    t: System,
    id: JobId,
    e: DaemonEventView,
    next: DaemonView,
) -> bool {
    &&& s.jobs.dom().contains(id)
    &&& {
        let job = s.jobs[id];
        let file = JobFile { at_worker: job.file.at_worker && is_alive(next), ..job.file };
        &&& job.worker matches Some(d) && is_alive(d) && can_happen(s, d, e) && daemon_steps(
            d,
            e,
            next,
        )
        &&& t.jobs == s.jobs.insert(id, Job { worker: Some(next), file, ..job })
    }
}

/// Whether `t` can follow `s`.
pub open spec fn follows(s: System, t: System) -> bool {
    ||| exists|id: JobId, args: Seq<Seq<char>>, quiet: bool| begins(s, t, id, args, quiet)
    ||| exists|id: JobId| queues(s, t, id)
    ||| exists|id: JobId| leaves(s, t, id)
    ||| exists|id: JobId, e: DaemonEventView, next: DaemonView| acts(s, t, id, e, next)
}

/// Whether `history` is a history of a queue: it starts with no jobs, and each state can follow
/// the one before.
pub open spec fn is_history(history: Seq<System>) -> bool {
    &&& history.len() > 0
    &&& history[0].jobs == Map::<JobId, Job>::empty()
    &&& forall|i: int|
        0 <= i < history.len() - 1 ==> follows(#[trigger] history[i], history[i + 1])
}

/// Whether a job's worker has read the queue directory.
pub open spec fn has_listed(job: Job) -> bool {
    job.worker matches Some(d) && !(d is OpenFile) && !(d is LockFile) && !(d is ListQueue)
}

/// Whether, from `s` to `t`, the job `a` comes into the queue behind the back of the worker of the later
/// job `b`, which has read the queue directory and has not ended.
pub open spec fn cuts_in(s: System, t: System, a: JobId, b: JobId) -> bool {
    &&& before(a, b)
    &&& s.jobs.dom().contains(b)
    &&& has_listed(s.jobs[b])
    &&& !has_ended(s.jobs[b])
    &&& !is_pending(s, a)
    &&& is_pending(t, a)
}

/// Whether the job `a`, if it is pending and comes before `id`, is still to be waited for.
spec fn is_awaited(s: System, a: JobId, id: JobId, wait: WaitView) -> bool {
    is_pending(s, a) && before(a, id) ==> exists|k: int|
        wait.next <= k < wait.targets.len() && #[trigger] wait.targets[k] == a
}

/// Whether the job `a` is not both pending and before `id`.
spec fn is_over(s: System, a: JobId, id: JobId) -> bool {
    !(is_pending(s, a) && before(a, id))
}

/// What holds of the worker of the job `id`, in the state `d`, where `a` does not cut in.
spec fn worker_ok(s: System, a: JobId, id: JobId, d: DaemonView) -> bool {
    match d {
        DaemonView::OpenFile { name } => name == job_name(',', id),
        DaemonView::LockFile { name } => name == job_name(',', id),
        DaemonView::ListQueue { name } => name == job_name(',', id),
        DaemonView::WaitOlder { id: own, wait } => own == id && !wait_finished(wait)
            && wait.phase != WaitPhase::Clear && !wait.clear && is_awaited(s, a, id, wait),
        DaemonView::ReadFile { id: own } => own == id && is_over(s, a, id),
        DaemonView::Separate { id: own, .. } => own == id && is_over(s, a, id),
        DaemonView::MarkExecutable { id: own, .. } => own == id && is_over(s, a, id),
        DaemonView::Redirect { id: own, .. } => own == id && is_over(s, a, id),
        DaemonView::Fork { id: own, .. } => own == id && is_over(s, a, id),
        DaemonView::Reap { id: own } => own == id && is_over(s, a, id),
        DaemonView::Report { id: own, .. } => own == id && is_over(s, a, id),
        DaemonView::Move { id: own, .. } => own == id && is_over(s, a, id),
        _ => true,
    }
}

/// The same of the job `b`, if it has a worker.
spec fn pair_ok(s: System, a: JobId, b: JobId) -> bool {
    s.jobs.dom().contains(b) ==> (s.jobs[b].worker matches Some(d) ==> worker_ok(s, a, b, d))
}

/// What holds of the job `id` itself, at any time: how far it has come says what its file is like.
spec fn job_ok(id: JobId, job: Job) -> bool {
    let file = job.file;
    &&& file.name == if job.done == 0 {
        None
    } else if job.done < 3 {
        Some(job_name('.', id))
    } else {
        Some(job_name(',', id))
    }
    &&& file.locked == (job.done >= 2)
    &&& file.at_queuer == (job.done >= 1 && !job.left)
    &&& file.shared == (job.done >= 6)
    &&& job.worker is Some == (job.done >= 7)
    &&& file.at_worker == (job.worker matches Some(d) && is_alive(d))
}

/// What holds of all jobs themselves, in every history.
spec fn jobs_ok(s: System) -> bool {
    forall|id: JobId| #[trigger] s.jobs.dom().contains(id) ==> job_ok(id, s.jobs[id])
}

/// The actions of the process that queues a job, one by one.
proof fn lemma_plan(id: JobId, args: Seq<Seq<char>>, quiet: bool)
    ensures
        ({
            let plan = queue_plan(id, args, quiet);
            let steps = create_steps(id);
            &&& plan.len() == if quiet {
                7
            } else {
                8nat
            }
            &&& plan[0] == QueueActionView::Step(steps[0])
            &&& plan[1] == QueueActionView::Step(steps[1])
            &&& plan[2] == QueueActionView::Step(steps[2])
            &&& plan[3] == QueueActionView::Step(steps[3])
            &&& plan[4] is Write
            &&& plan[5] is ShareFile
            &&& plan[6] == (QueueActionView::StartWorker { name: job_name(',', id) })
            &&& !quiet ==> plan[7] is Announce
        }),
{
    let first = file_actions(create_steps(id));
    let last = hand_over(id, args, quiet);
    let plan = queue_plan(id, args, quiet);
    assert(first.len() == 4);
    assert(forall|k: int| 0 <= k < 4 ==> #[trigger] plan[k] == first[k]);
    assert(forall|k: int| 4 <= k < plan.len() ==> #[trigger] plan[k] == last[k - 4]);
}

proof fn lemma_wait_or_go(s: System, a: JobId, id: JobId, wait: WaitView)
    requires
        is_awaited(s, a, id, wait),
        wait.phase != WaitPhase::Clear,
        !wait.clear,
    ensures
        worker_ok(s, a, id, wait_or_go(id, wait)),
{
}

/// The worker that acts goes on as it must.
proof fn lemma_own_action(s: System, a: JobId, id: JobId, d: DaemonView, e: DaemonEventView)
    requires
        worker_ok(s, a, id, d),
        can_happen(s, d, e),
    ensures
        worker_ok(s, a, id, daemon_next(d, e)),
{
    match (d, e) {
        (DaemonView::ListQueue { name }, DaemonEventView::Names(names)) => {
            law_name_round_trip(id);
            let jobs = listing(names);
            lemma_listing(jobs, names);
            assert(is_listing(jobs, names));
            law_older_jobs(jobs, id);
            let older = older_than(jobs, id);
            if is_pending(s, a) && before(a, id) {
                law_job_is_listed(names, a, jobs);
                assert(older.contains(a));
            }
            lemma_wait_or_go(s, a, id, wait_start(older, false));
        },
        (DaemonView::WaitOlder { wait, .. }, DaemonEventView::Answer(yes)) => {
            let next = wait_advanced(wait, yes);
            if is_pending(s, a) && before(a, id) {
                let k = choose|k: int|
                    wait.next <= k < wait.targets.len() && #[trigger] wait.targets[k] == a;
                assert(next.targets[k] == a);
                assert(next.next <= k);
            }
            lemma_wait_or_go(s, a, id, next);
        },
        _ => {},
    }
}

/// Each job goes on as it must, whatever the others do.
proof fn lemma_jobs_step(s: System, t: System)
    requires
        jobs_ok(s),
        follows(s, t),
    ensures
        jobs_ok(t),
{
    assert forall|id: JobId| #[trigger] t.jobs.dom().contains(id) implies job_ok(id, t.jobs[id]) by {
        if s.jobs.dom().contains(id) {
            assert(job_ok(id, s.jobs[id]));
            lemma_plan(id, s.jobs[id].args, s.jobs[id].quiet);
        }
    }
}

/// What holds of the worker of `b` is kept where one job `x` changes to `job`, if that does not make
/// `a` pending behind the back of that worker.
proof fn lemma_one_changes(s: System, t: System, a: JobId, b: JobId, x: JobId, job: Job)
    requires
        pair_ok(s, a, b),
        t.jobs == s.jobs.insert(x, job),
        x == b ==> (job.worker matches Some(d) ==> worker_ok(s, a, b, d)),
        x == a && is_pending(t, a) && before(a, b) && s.jobs.dom().contains(b) ==> is_pending(s, a)
            || !has_listed(s.jobs[b]) || has_ended(s.jobs[b]),
    ensures
        pair_ok(t, a, b),
{
    if t.jobs.dom().contains(b) {
        if let Some(d) = t.jobs[b].worker {
            if is_pending(t, a) && before(a, b) {
                assert(x == b ==> is_pending(s, a));
                assert(x != a ==> is_pending(s, a));
            }
        }
    }
}

proof fn lemma_pair_step(s: System, t: System, a: JobId, b: JobId)
    requires
        jobs_ok(s),
        pair_ok(s, a, b),
        !cuts_in(s, t, a, b),
        follows(s, t),
    ensures
        pair_ok(t, a, b),
{
    if exists|id: JobId, args: Seq<Seq<char>>, quiet: bool| begins(s, t, id, args, quiet) {
        let (x, args, quiet) = choose|id: JobId, args: Seq<Seq<char>>, quiet: bool|
            begins(s, t, id, args, quiet);
        lemma_one_changes(s, t, a, b, x, new_job(args, quiet));
    } else if exists|id: JobId| queues(s, t, id) {
        let x = choose|id: JobId| queues(s, t, id);
        let job = s.jobs[x];
        let plan = queue_plan(x, job.args, job.quiet);
        let next = after_action(job, plan[job.done as int]);
        if x == b && job.worker is None {
            lemma_plan(x, job.args, job.quiet);
            assert(job_ok(x, job));
        }
        lemma_one_changes(s, t, a, b, x, next);
    } else if exists|id: JobId| leaves(s, t, id) {
        let x = choose|id: JobId| leaves(s, t, id);
        lemma_one_changes(s, t, a, b, x, t.jobs[x]);
    } else {
        let (x, e, next) = choose|id: JobId, e: DaemonEventView, next: DaemonView|
            acts(s, t, id, e, next);
        if x == b {
            let d = s.jobs[x].worker->0;
            lemma_own_action(s, a, b, d, e);
            assert(worker_ok(s, a, b, next));
        }
        lemma_one_changes(s, t, a, b, x, t.jobs[x]);
    }
}

proof fn lemma_history(history: Seq<System>, n: int)
    requires
        is_history(history),
        0 <= n < history.len(),
    ensures
        jobs_ok(history[n]),
    decreases n,
{
    if n > 0 {
        lemma_history(history, n - 1);
        assert(follows(history[n - 1], history[n - 1 + 1]));
        lemma_jobs_step(history[n - 1], history[n]);
    }
}

proof fn lemma_pair(history: Seq<System>, n: int, a: JobId, b: JobId)
    requires
        is_history(history),
        0 <= n < history.len(),
        forall|i: int| 0 <= i < n ==> !cuts_in(#[trigger] history[i], history[i + 1], a, b),
    ensures
        pair_ok(history[n], a, b),
    decreases n,
{
    if n > 0 {
        lemma_pair(history, n - 1, a, b);
        lemma_history(history, n - 1);
        assert(follows(history[n - 1], history[n - 1 + 1]));
        assert(!cuts_in(history[n - 1], history[n - 1 + 1], a, b));
        lemma_pair_step(history[n - 1], history[n], a, b);
    }
}

/// Whether a job is in good hands: it has a worker that has not ended, or the process that queues it
/// has yet to start one.
spec fn in_hand(job: Job) -> bool {
    match job.worker {
        Some(d) => is_alive(d),
        None => !job.left,
    }
}

/// A job that is in good hands has been so ever since its ID was taken.
proof fn lemma_in_hand(history: Seq<System>, m: int, n: int, id: JobId)
    requires
        is_history(history),
        0 <= m <= n < history.len(),
        history[m].jobs.dom().contains(id),
    ensures
        history[n].jobs.dom().contains(id),
        in_hand(history[n].jobs[id]) ==> in_hand(history[m].jobs[id]),
    decreases n - m,
{
    if m < n {
        let s = history[n - 1];
        let t = history[n];
        lemma_in_hand(history, m, n - 1, id);
        lemma_history(history, n - 1);
        assert(follows(history[n - 1], history[n - 1 + 1]));
        assert(job_ok(id, s.jobs[id]));
        lemma_plan(id, s.jobs[id].args, s.jobs[id].quiet);
        if exists|x: JobId, args: Seq<Seq<char>>, quiet: bool| begins(s, t, x, args, quiet) {
            let (x, args, quiet) = choose|x: JobId, args: Seq<Seq<char>>, quiet: bool|
                begins(s, t, x, args, quiet);
            assert(x != id);
        }
    }
}

/// A worker that has not ended has its file locked.
proof fn lemma_worker_has_lock(s: System, id: JobId)
    requires
        jobs_ok(s),
        s.jobs.dom().contains(id),
        is_started(s.jobs[id]),
        !has_ended(s.jobs[id]),
    ensures
        is_pending(s, id),
{
    assert(job_ok(id, s.jobs[id]));
}

/// When the process that queues a job has done all that it does, the job has a worker.
pub proof fn law_queued_job_is_started(history: Seq<System>, n: int, id: JobId)
    requires
        is_history(history),
        0 <= n < history.len(),
        history[n].jobs.dom().contains(id),
        ({
            let job = history[n].jobs[id];
            job.done == queue_plan(id, job.args, job.quiet).len()
        }),
    ensures
        is_started(history[n].jobs[id]),
{
    let job = history[n].jobs[id];
    lemma_history(history, n);
    lemma_plan(id, job.args, job.quiet);
    assert(job_ok(id, job));
}

/// The lock on a job file passes without a gap from the process that queues the job to its worker: of
/// a job that has been started and has not ended, the file has been locked at every time `m` since it
/// first was, and has been found so under its name ever since it has had it.
pub proof fn law_lock_without_gap(history: Seq<System>, m: int, n: int, id: JobId)
    requires
        is_history(history),
        0 <= m <= n < history.len(),
        history[m].jobs.dom().contains(id),
        is_started(history[n].jobs[id]),
        !has_ended(history[n].jobs[id]),
    ensures
        history[m].jobs[id].done >= 2 ==> is_locked(history[m].jobs[id].file),
        history[m].jobs[id].file.name == Some(job_name(',', id)) ==> is_pending(history[m], id),
{
    lemma_history(history, m);
    lemma_history(history, n);
    lemma_in_hand(history, m, n, id);
    assert(job_ok(id, history[m].jobs[id]));
    law_temp_names_apart(id, id);
}

/// A job's command is started and running only when a job before it has ended, or was given up by the
/// process that queued it without a worker, or is not in the queue yet, however the actions of all
/// processes fall together, if the earlier job has not cut in.
pub proof fn law_jobs_run_in_order(history: Seq<System>, n: int, a: JobId, b: JobId)
    requires
        is_history(history),
        0 <= n < history.len(),
        forall|i: int| 0 <= i < n ==> !cuts_in(#[trigger] history[i], history[i + 1], a, b),
        history[n].jobs.dom().contains(a),
        history[n].jobs.dom().contains(b),
        is_running(history[n].jobs[b]),
        before(a, b),
    ensures
        !is_pending(history[n], a),
        is_started(history[n].jobs[a]) ==> has_ended(history[n].jobs[a]),
        !is_started(history[n].jobs[a]) ==> history[n].jobs[a].left || !is_placed(
            history[n].jobs[a],
        ),
{
    let s = history[n];
    lemma_history(history, n);
    lemma_pair(history, n, a, b);
    assert(is_over(s, a, b));
    assert(job_ok(a, s.jobs[a]));
    if is_started(s.jobs[a]) && !has_ended(s.jobs[a]) {
        lemma_worker_has_lock(s, a);
    }
    if !s.jobs[a].left && is_placed(s.jobs[a]) {
        assert(is_pending(s, a));
    }
}

/// At no time do two jobs run, however the actions of all processes fall together, if neither has cut
/// in on the other.
pub proof fn law_one_job_at_a_time(history: Seq<System>, n: int, a: JobId, b: JobId)
    requires
        is_history(history),
        0 <= n < history.len(),
        forall|i: int| 0 <= i < n ==> !cuts_in(#[trigger] history[i], history[i + 1], a, b),
        forall|i: int| 0 <= i < n ==> !cuts_in(#[trigger] history[i], history[i + 1], b, a),
        history[n].jobs.dom().contains(a),
        history[n].jobs.dom().contains(b),
        is_running(history[n].jobs[a]),
        is_running(history[n].jobs[b]),
    ensures
        a == b,
{
    if before(a, b) {
        law_jobs_run_in_order(history, n, a, b);
    } else if before(b, a) {
        law_jobs_run_in_order(history, n, b, a);
    }
}

} // verus!
