use nq::cli::{
    clear_executable, cmd_list, cmd_queue, parse_job_ids, resolve_job_ids, select_command,
    set_executable, tail_command, tail_targets, test_status, CliError, Command, TailCommand,
    Targets,
};
use nq::job::JobId;

fn strings(args: &[&str]) -> Vec<String> {
    args.iter().map(|a| a.to_string()).collect()
}

#[test]
fn job_ids_with_and_without_the_comma() {
    let id = JobId { timestamp_ms: 0xabc, pid: 12345 };
    let ids = parse_job_ids(&strings(&[",abc.12345", "abc.12345", ".abc.12345"])).unwrap();
    assert_eq!(ids, vec![id, id, id]);
    assert_eq!(parse_job_ids(&[]).unwrap(), vec![]);
}

#[test]
fn first_bad_job_id_is_refused() {
    let e = parse_job_ids(&strings(&[",abc.12345", "nonsense", "worse"])).unwrap_err();
    assert_eq!(e.message(), "invalid job id: nonsense");
}

#[test]
fn no_ids_mean_the_whole_queue() {
    assert!(matches!(resolve_job_ids(&[]), Ok(Targets::WholeQueue)));
    match resolve_job_ids(&strings(&["1.2"])) {
        Ok(Targets::Given(ids)) => assert_eq!(ids, vec![JobId { timestamp_ms: 1, pid: 2 }]),
        other => panic!("{:?}", other),
    }
    assert!(matches!(resolve_job_ids(&strings(&["?"])), Err(CliError::InvalidJobId(_))));
}

#[test]
fn all_jobs_can_be_asked_for() {
    let some = strings(&["1.2"]);
    assert!(matches!(tail_targets(true, &some), Ok(Targets::WholeQueue)));
    assert!(matches!(tail_targets(true, &[]), Ok(Targets::WholeQueue)));
    assert!(matches!(tail_targets(false, &[]), Ok(Targets::WholeQueue)));
    assert!(matches!(tail_targets(false, &some), Ok(Targets::Given(_))));
    assert!(matches!(tail_targets(false, &strings(&["?"])), Err(CliError::InvalidJobId(_))));
}

#[test]
fn commands() {
    let some = strings(&["1.2"]);
    assert!(matches!(select_command(true, false, &[]), Ok(Command::Wait(Targets::WholeQueue))));
    assert!(matches!(select_command(true, false, &some), Ok(Command::Wait(Targets::Given(_)))));
    assert!(matches!(select_command(false, true, &some), Ok(Command::Test(Targets::Given(_)))));
    assert!(matches!(select_command(false, false, &[]), Ok(Command::List)));
    assert!(matches!(select_command(false, false, &some), Ok(Command::Queue)));
    let e = select_command(true, true, &some).unwrap_err();
    assert_eq!(e.message(), "cannot use both -w and -t together");
    assert!(select_command(true, false, &strings(&["make"])).is_err());
}

#[test]
fn listing_the_queue() {
    let jobs = vec![
        JobId { timestamp_ms: 0xabc, pid: 42 },
        JobId { timestamp_ms: 0x14f6f3034f8, pid: 17035 },
    ];
    assert_eq!(cmd_list(&jobs, false), strings(&[",00000000abc.42", ",14f6f3034f8.17035"]));
    assert_eq!(cmd_list(&jobs, true), strings(&["2"]));
    assert_eq!(cmd_list(&vec![], false), strings(&[]));
    assert_eq!(cmd_list(&vec![], true), strings(&["0"]));
}

#[test]
fn queueing_a_command() {
    let id = JobId { timestamp_ms: 0xabc, pid: 42 };
    let job = cmd_queue(&id, &strings(&["echo", "a b"]), false);
    assert_eq!(job.exec_line, "exec echo 'a b'\n".as_bytes().to_vec());
    assert_eq!(job.announcement, Some(",00000000abc.42".to_string()));
    assert_eq!(cmd_queue(&id, &strings(&["true"]), true).announcement, None);
}

#[test]
fn printed_ids_are_read() {
    let id = JobId { timestamp_ms: u64::MAX, pid: 0 };
    let printed = id.to_string();
    let bare = printed[1..].to_string();
    assert_eq!(parse_job_ids(&[printed, bare]).unwrap(), vec![id, id]);
}

#[test]
fn tailing() {
    let ids = vec![JobId { timestamp_ms: 0xabc, pid: 42 }];
    match tail_command(ids.clone(), true) {
        TailCommand::Print(lines) => assert_eq!(lines, strings(&[",00000000abc.42"])),
        other => panic!("{:?}", other),
    }
    match tail_command(ids.clone(), false) {
        TailCommand::Follow(jobs) => assert_eq!(jobs, ids),
        other => panic!("{:?}", other),
    }
}

#[test]
fn status_of_a_test() {
    assert_eq!(test_status(true), 0);
    assert_eq!(test_status(false), 1);
}

#[test]
fn executable_bits() {
    assert_eq!(set_executable(0o100644), 0o100755);
    assert_eq!(clear_executable(0o100755), 0o100644);
    assert_eq!(clear_executable(set_executable(0o600)), 0o600);
    assert_eq!(set_executable(clear_executable(0o711)), 0o711);
}
