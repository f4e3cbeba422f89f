use nq::dir::{io_message, Error, Place, QueueDir, Step};
use nq::job::JobId;

/// A queue directory, and the directories beside it, in memory.
struct Memory {
    queue: Vec<String>,
    done: Vec<String>,
    fail: Vec<String>,
    opened: Option<String>,
    locked: bool,
    synced: bool,
}

fn memory() -> Memory {
    Memory {
        queue: Vec::new(),
        done: Vec::new(),
        fail: Vec::new(),
        opened: None,
        locked: false,
        synced: false,
    }
}

impl Memory {
    fn take(&mut self, name: &str) {
        let at = self.queue.iter().position(|n| n == name).unwrap();
        self.queue.remove(at);
    }

    fn perform(&mut self, step: &Step) {
        match step {
            Step::CreateNew { name } => {
                assert!(!self.queue.contains(name));
                self.queue.push(name.clone());
                self.opened = Some(name.clone());
                self.locked = false;
            }
            Step::LockExclusive => self.locked = true,
            Step::Rename { from, place, name } => {
                self.take(from);
                match place {
                    Place::Queue => self.queue.push(name.clone()),
                    Place::Done => self.done.push(name.clone()),
                    Place::Fail => self.fail.push(name.clone()),
                }
            }
            Step::SyncQueue => self.synced = true,
            Step::OpenAppend { name } => {
                assert!(self.queue.contains(name));
                self.opened = Some(name.clone());
            }
            Step::Remove { name } => self.take(name),
        }
    }

    fn create(&mut self, qd: &QueueDir, id: &JobId) {
        for step in qd.create_job(id, None).unwrap() {
            assert!(self.locked || !self.queue.contains(&id.filename()));
            self.perform(&step);
        }
        self.locked = false;
    }
}

#[test]
fn test_create_and_list_job() {
    let qd = QueueDir::open_at("spool".to_string());
    let mut dir = memory();
    let id = JobId::new(1_700_000_000_000, 77);

    dir.create(&qd, &id);

    let jobs = qd.list_jobs(&dir.queue);
    assert_eq!(jobs.len(), 1);
    assert_eq!(jobs[0], id);
    assert!(dir.synced);
}

#[test]
fn test_list_jobs_sorted() {
    let qd = QueueDir::open_at("spool".to_string());
    let mut dir = memory();

    let id_a = JobId { timestamp_ms: 100, pid: 1 };
    let id_b = JobId { timestamp_ms: 200, pid: 2 };
    let id_c = JobId { timestamp_ms: 150, pid: 3 };

    // Create in non-sorted order.
    dir.create(&qd, &id_b);
    dir.create(&qd, &id_a);
    dir.create(&qd, &id_c);

    let jobs = qd.list_jobs(&dir.queue);
    assert_eq!(jobs.len(), 3);
    assert_eq!(jobs[0], id_a);
    assert_eq!(jobs[1], id_c);
    assert_eq!(jobs[2], id_b);
}

#[test]
fn test_open_job() {
    let qd = QueueDir::open_at("spool".to_string());
    let mut dir = memory();
    let id = JobId::new(1_700_000_000_000, 77);
    dir.create(&qd, &id);
    dir.opened = None;
    dir.perform(&qd.open_job(&id));
    assert_eq!(dir.opened, Some(id.filename()));
}

#[test]
fn test_remove_job() {
    let qd = QueueDir::open_at("spool".to_string());
    let mut dir = memory();
    let id = JobId::new(1_700_000_000_000, 77);

    dir.create(&qd, &id);

    assert!(qd.list_jobs(&dir.queue).len() == 1);
    dir.perform(&qd.remove_job(&id));
    assert!(qd.list_jobs(&dir.queue).is_empty());
}

#[test]
fn test_move_to_done() {
    let qd = QueueDir {
        path: "spool".to_string(),
        done_path: Some("done".to_string()),
        fail_path: None,
    };
    let mut dir = memory();
    let id = JobId::new(1_700_000_000_000, 77);
    dir.create(&qd, &id);

    dir.perform(&qd.move_to_done(&id).unwrap());
    assert!(!dir.queue.contains(&id.filename()));
    assert!(dir.done.contains(&id.filename()));
    assert!(qd.move_to_fail(&id).is_none());
}

#[test]
fn test_move_to_fail() {
    let qd = QueueDir {
        path: "spool".to_string(),
        done_path: None,
        fail_path: Some("fail".to_string()),
    };
    let mut dir = memory();
    let id = JobId::new(1_700_000_000_000, 77);
    dir.create(&qd, &id);

    dir.perform(&qd.move_to_fail(&id).unwrap());
    assert!(!dir.queue.contains(&id.filename()));
    assert!(dir.fail.contains(&id.filename()));
    assert!(qd.move_to_done(&id).is_none());
}

#[test]
fn job_that_exists_is_refused() {
    let qd = QueueDir::open_at("spool".to_string());
    let id = JobId { timestamp_ms: 100, pid: 1 };
    match qd.create_job(&id, Some("spool/,00000000064.1".to_string())) {
        Err(Error::Exists(path)) => assert_eq!(path, "spool/,00000000064.1"),
        _ => panic!("the job was not refused"),
    }
}

#[test]
fn listing_leaves_out_other_files() {
    let qd = QueueDir::open_at("spool".to_string());
    let names: Vec<String> = [".00000000064.1", "notes", ",x", ",64.1", ",00000000064.1", "", ","]
        .iter()
        .map(|n| n.to_string())
        .collect();
    let id = JobId { timestamp_ms: 100, pid: 1 };
    assert_eq!(qd.list_jobs(&names), vec![id, id]);
}

#[test]
fn listing_does_not_depend_on_order() {
    let qd = QueueDir::open_at("spool".to_string());
    let names: Vec<String> =
        [",2.10", ",2.9", ",1.3", ",30.1"].iter().map(|n| n.to_string()).collect();
    let mut reversed = names.clone();
    reversed.reverse();
    let jobs = qd.list_jobs(&names);
    assert_eq!(jobs, qd.list_jobs(&reversed));
    let pids: Vec<u32> = jobs.iter().map(|j| j.pid).collect();
    assert_eq!(pids, vec![3, 9, 10, 1]);
}

#[test]
fn environment_gives_the_directories() {
    let qd = QueueDir::open(None, None, None);
    assert_eq!(qd.path, ".");
    assert!(qd.done_path.is_none() && qd.fail_path.is_none());
    assert_eq!(qd.path_of(Place::Queue), Some(&".".to_string()));
    assert_eq!(qd.path_of(Place::Done), None);
    let qd = QueueDir::open(
        Some("/q".to_string()),
        Some("/d".to_string()),
        Some("/f".to_string()),
    );
    assert_eq!(qd.path, "/q");
    assert_eq!(qd.path_of(Place::Done), Some(&"/d".to_string()));
    assert_eq!(qd.path_of(Place::Fail), Some(&"/f".to_string()));
}

#[test]
fn directories_that_have_to_be_there() {
    let some = |path: &str| Some(path.to_string());
    assert_eq!(QueueDir::open(None, None, None).directories(), vec!["."]);
    assert_eq!(QueueDir::open(some("q"), None, some("f")).directories(), vec!["q", "f"]);
    let all = QueueDir::open(some("q"), some("d"), some("f"));
    assert_eq!(all.directories(), vec!["q", "d", "f"]);
}

#[test]
fn error_messages() {
    assert_eq!(Error::Exists("a/b".to_string()).message(), "Job already exists: a/b");
    assert_eq!(Error::Parse("x".to_string()).message(), "Failed to parse job filename: x");
    let e = std::io::Error::new(std::io::ErrorKind::Other, "disk on fire");
    assert_eq!(Error::from(e).message(), "I/O error: disk on fire");
    assert_eq!(io_message("disk on fire"), "I/O error: disk on fire");
}
