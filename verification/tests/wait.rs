use nq::job::JobId;
use nq::wait::{TestAction, TestRun, WaitAction, WaitRun};

#[derive(Clone, Copy, PartialEq)]
enum Fate {
    Gone,
    Moved,
    Idle,
    Running,
}

fn job(n: u64) -> JobId {
    JobId { timestamp_ms: n, pid: 1 }
}

fn wait_trace(fates: &[Fate], clear: bool) -> Vec<String> {
    let mut run = WaitRun::new((0..fates.len() as u64).map(job).collect(), clear);
    let mut trace = Vec::new();
    while !run.finished() {
        let fate = fates[run.next];
        let yes = match run.action() {
            WaitAction::Open { name } => {
                trace.push(format!("open {}", name));
                fate == Fate::Idle || fate == Fate::Running
            }
            WaitAction::Probe => {
                trace.push("probe".to_string());
                fate == Fate::Running
            }
            WaitAction::Block => {
                trace.push("block".to_string());
                false
            }
            WaitAction::Clear { name } => {
                trace.push(format!("clear {}", name));
                false
            }
            WaitAction::Finished => unreachable!(),
        };
        run.advance(yes);
    }
    assert!(matches!(run.action(), WaitAction::Finished));
    run.advance(true);
    assert!(run.finished());
    trace
}

#[test]
fn waiting_takes_jobs_in_order() {
    assert_eq!(
        wait_trace(&[Fate::Gone, Fate::Idle, Fate::Running], true),
        vec![
            "open ,00000000000.1",
            "open ,00000000001.1",
            "probe",
            "clear ,00000000001.1",
            "open ,00000000002.1",
            "probe",
            "block",
            "clear ,00000000002.1",
        ]
    );
}

#[test]
fn waiting_without_clearing() {
    assert_eq!(
        wait_trace(&[Fate::Running, Fate::Moved, Fate::Idle], false),
        vec![
            "open ,00000000000.1",
            "probe",
            "block",
            "open ,00000000001.1",
            "open ,00000000002.1",
            "probe",
        ]
    );
    assert!(wait_trace(&[], false).is_empty());
}

fn all_done(fates: &[Fate]) -> bool {
    let mut run = TestRun::new((0..fates.len() as u64).map(job).collect());
    let mut held = 0;
    loop {
        let fate = fates.get(run.next).copied().unwrap_or(Fate::Idle);
        let yes = match run.action() {
            TestAction::Open { name } => {
                assert_eq!(name, job(run.next as u64).filename());
                fate == Fate::Idle || fate == Fate::Running
            }
            TestAction::Find { name } => {
                assert_eq!(name, job(run.next as u64).filename());
                fate == Fate::Moved
            }
            TestAction::TryLock => {
                held += (fate == Fate::Idle) as i32;
                fate == Fate::Idle
            }
            TestAction::Unlock => {
                held -= 1;
                false
            }
            TestAction::Answer(answer) => {
                assert_eq!(held, 0);
                return answer;
            }
        };
        run.advance(yes);
    }
}

#[test]
fn testing_jobs() {
    assert!(all_done(&[]));
    assert!(all_done(&[Fate::Idle, Fate::Idle]));
    assert!(!all_done(&[Fate::Idle, Fate::Running]));
    // A job that ended and was moved is done; one that is nowhere to be found is not.
    assert!(all_done(&[Fate::Moved]));
    assert!(all_done(&[Fate::Idle, Fate::Moved, Fate::Idle]));
    assert!(!all_done(&[Fate::Moved, Fate::Running]));
    assert!(!all_done(&[Fate::Gone]));
    assert!(!all_done(&[Fate::Moved, Fate::Gone]));
    assert!(!all_done(&[Fate::Running, Fate::Idle]));
}
