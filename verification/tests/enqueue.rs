use nq::dir::{Error, QueueDir, Step};
use nq::enqueue::{queue_actions, QueueAction};
use nq::job::JobId;

fn strings(args: &[&str]) -> Vec<String> {
    args.iter().map(|a| a.to_string()).collect()
}

fn trace(quiet: bool) -> Vec<String> {
    let qd = QueueDir::open_at("spool".to_string());
    let id = JobId { timestamp_ms: 100, pid: 1 };
    let cmd = strings(&["echo", "a\nb"]);
    queue_actions(&qd, &id, None, &cmd, quiet)
        .unwrap()
        .iter()
        .map(|action| match action {
            QueueAction::Step(Step::CreateNew { name }) => format!("create {}", name),
            QueueAction::Step(Step::LockExclusive) => "lock".to_string(),
            QueueAction::Step(Step::Rename { from, place, name }) => {
                format!("rename {} {:?} {}", from, place, name)
            }
            QueueAction::Step(Step::SyncQueue) => "sync".to_string(),
            QueueAction::Step(step) => panic!("{:?}", step),
            QueueAction::Write(bytes) => {
                format!("write {}", String::from_utf8(bytes.clone()).unwrap())
            }
            QueueAction::ShareFile => "share".to_string(),
            QueueAction::StartWorker { name } => format!("start {}", name),
            QueueAction::Announce(text) => format!("announce {}", text),
        })
        .collect()
}

#[test]
fn queueing_hands_the_lock_on() {
    let expected = vec![
        "create .00000000064.1",
        "lock",
        "rename .00000000064.1 Queue ,00000000064.1",
        "sync",
        "write exec echo 'a\nb'\n",
        "share",
        "start ,00000000064.1",
        "announce ,00000000064.1",
    ];
    assert_eq!(trace(false), expected);
    assert_eq!(trace(true), expected[..7].to_vec());
}

/// Performs the first actions, lets the process that queues the job end after `k` of them, and tells
/// whether the file is locked then.
fn locked_after(k: usize) -> bool {
    let qd = QueueDir::open_at("spool".to_string());
    let id = JobId { timestamp_ms: 100, pid: 1 };
    let actions = queue_actions(&qd, &id, None, &strings(&["true"]), true).unwrap();
    let (mut locked, mut shared, mut at_worker) = (false, false, false);
    for action in &actions[..k] {
        match action {
            QueueAction::Step(Step::LockExclusive) => locked = true,
            QueueAction::ShareFile => shared = true,
            QueueAction::StartWorker { .. } => at_worker = shared,
            _ => {}
        }
    }
    locked && at_worker
}

#[test]
fn lock_outlives_the_process_that_queues() {
    assert!(locked_after(7));
    assert!(!locked_after(6));
}

#[test]
fn queueing_a_job_that_exists() {
    let qd = QueueDir::open_at("spool".to_string());
    let id = JobId { timestamp_ms: 100, pid: 1 };
    let shown = "spool/,00000000064.1".to_string();
    match queue_actions(&qd, &id, Some(shown.clone()), &strings(&["true"]), false) {
        Err(Error::Exists(path)) => assert_eq!(path, shown),
        _ => panic!("the job was not refused"),
    }
}
