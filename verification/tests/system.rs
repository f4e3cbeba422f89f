use nq::daemon::{Daemon, DaemonAction, DaemonEvent};
use nq::dir::{QueueDir, Step};
use nq::enqueue::{queue_actions, QueueAction};
use nq::job::JobId;
use nq::wait::WaitAction;

/// A job, the process that queues it, its file, and its worker. `at_hand` is the job file that the
/// worker has open to wait for.
struct Job {
    id: JobId,
    to_do: Vec<QueueAction>,
    left: bool,
    name: String,
    locked: bool,
    at_queuer: bool,
    shared: bool,
    at_worker: bool,
    worker: Option<Daemon>,
    at_hand: String,
    ended: bool,
}

fn new_job(id: JobId) -> Job {
    let dir = QueueDir::open_at("spool".to_string());
    let mut to_do = queue_actions(&dir, &id, None, &["true".to_string()], false).unwrap();
    to_do.reverse();
    Job {
        id,
        to_do,
        left: false,
        name: String::new(),
        locked: false,
        at_queuer: false,
        shared: false,
        at_worker: false,
        worker: None,
        at_hand: String::new(),
        ended: false,
    }
}

impl Job {
    fn is_locked(&self) -> bool {
        self.locked && (self.at_queuer || self.at_worker)
    }

    fn is_placed(&self) -> bool {
        self.left || self.name == self.id.filename()
    }

    fn is_running(&self) -> bool {
        matches!(self.worker, Some(Daemon::Reap { .. }))
    }

    fn has_listed(&self) -> bool {
        match &self.worker {
            None | Some(Daemon::OpenFile { .. }) | Some(Daemon::LockFile { .. }) => false,
            Some(Daemon::ListQueue { .. }) => false,
            Some(_) => true,
        }
    }

    /// The process that queues the job does its next action, or ends when it has done all.
    fn queue_on(&mut self) {
        match self.to_do.pop() {
            Some(QueueAction::Step(Step::CreateNew { name })) => {
                self.name = name;
                self.at_queuer = true;
            }
            Some(QueueAction::Step(Step::LockExclusive)) => self.locked = true,
            Some(QueueAction::Step(Step::Rename { name, .. })) => self.name = name,
            Some(QueueAction::ShareFile) => self.shared = true,
            Some(QueueAction::StartWorker { name }) => {
                self.worker = Some(Daemon::new(name));
                self.at_worker = self.shared;
            }
            Some(_) => {}
            None => {
                self.left = true;
                self.at_queuer = false;
            }
        }
    }
}

/// What becomes of the next action of the worker of `jobs[i]`; none where it has to wait.
fn outcome(jobs: &mut Vec<Job>, i: usize) -> Option<DaemonEvent> {
    let locked = |name: &str| jobs.iter().any(|j| j.name == name && j.is_locked());
    match jobs[i].worker.as_ref().unwrap().action() {
        DaemonAction::ListQueue => {
            Some(DaemonEvent::Names(jobs.iter().rev().map(|j| j.name.clone()).collect()))
        }
        DaemonAction::Wait(WaitAction::Open { name }) => {
            jobs[i].at_hand = name;
            Some(DaemonEvent::Answer(true))
        }
        DaemonAction::Wait(WaitAction::Probe) => Some(DaemonEvent::Answer(locked(&jobs[i].at_hand))),
        DaemonAction::Wait(WaitAction::Block) => {
            if locked(&jobs[i].at_hand) {
                None
            } else {
                Some(DaemonEvent::Answer(true))
            }
        }
        DaemonAction::ReadFile => Some(DaemonEvent::Content("exec true\n".as_bytes().to_vec())),
        DaemonAction::Fork => Some(DaemonEvent::Forked(100 + i as i32)),
        DaemonAction::Reap => Some(DaemonEvent::Ended(0)),
        _ => Some(DaemonEvent::Done),
    }
}

/// What the laws say of every state: a job file that was locked stays locked until its worker has
/// ended; of two jobs one runs at most, and not the later before the earlier has ended or while it is
/// in the queue, if the earlier has not cut in.
fn check(jobs: &[Job], cut_in: &[(JobId, JobId)]) {
    for b in jobs {
        if b.locked && !b.ended {
            assert!(b.is_locked());
        }
        for a in jobs.iter().filter(|a| a.id < b.id && !cut_in.contains(&(a.id, b.id))) {
            assert!(!(a.is_running() && b.is_running()));
            assert!(a.ended || !a.is_placed() || !b.is_running());
        }
    }
}

#[test]
fn one_job_runs_at_a_time_and_in_order() {
    let (mut overlaps, mut out_of_order, mut cuts, mut pairs) = (0, 0, 0, 0);
    for seed in 1..400u64 {
        let mut random = seed;
        let mut next = |bound: usize| {
            random = random.wrapping_mul(6364136223846793005).wrapping_add(1442695040888963407);
            (random >> 33) as usize % bound
        };
        let mut jobs: Vec<Job> = Vec::new();
        let mut cut_in: Vec<(JobId, JobId)> = Vec::new();
        let mut ids: Vec<JobId> =
            (0..6).map(|k| JobId { timestamp_ms: 5 + k / 2, pid: 9 + k as u32 }).collect();
        while !ids.is_empty() || jobs.iter().any(|j| !j.ended) {
            // IDs are taken in any order.
            if !ids.is_empty() && next(8) == 0 {
                let id = ids.remove(next(ids.len()));
                out_of_order += jobs.iter().any(|j| id < j.id) as u32;
                jobs.push(new_job(id));
            }
            if jobs.is_empty() {
                continue;
            }
            let i = next(jobs.len());
            if jobs[i].ended {
                if !jobs[i].left {
                    jobs[i].queue_on();
                }
            } else if jobs[i].worker.is_none() || (!jobs[i].left && next(2) == 0) {
                overlaps += (jobs.iter().filter(|j| !j.is_placed()).count() > 1) as u32;
                let placed = jobs[i].is_placed();
                jobs[i].queue_on();
                if !placed && jobs[i].is_placed() {
                    let id = jobs[i].id;
                    let later = jobs.iter().filter(|b| id < b.id && b.has_listed() && !b.ended);
                    cut_in.extend(later.map(|b| (id, b.id)));
                }
            } else if let Some(event) = outcome(&mut jobs, i) {
                let worker = jobs[i].worker.take().unwrap().step(event);
                if matches!(worker.action(), DaemonAction::Exit(_)) {
                    jobs[i].ended = true;
                    jobs[i].at_worker = false;
                }
                jobs[i].worker = Some(worker);
            }
            check(&jobs, &cut_in);
        }
        cuts += cut_in.len();
        pairs += 15;
    }
    // All that the laws are about has come up, and of most pairs none has cut in.
    assert!(overlaps > 100 && out_of_order > 100 && cuts > 100 && 2 * cuts < pairs);
}
