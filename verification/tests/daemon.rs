use nq::daemon::{command_in, older_jobs, Daemon, DaemonAction, DaemonError, DaemonEvent};
use nq::dir::Place;
use nq::exec::build_exec_line;
use nq::job::JobId;
use nq::status::{destination, exit_code, trailer};
use nq::wait::WaitAction;

fn strings(args: &[&str]) -> Vec<String> {
    args.iter().map(|a| a.to_string()).collect()
}

/// Runs a worker to its end; jobs with the process ID 7 are running, 8 are gone, others are idle.
fn run(name: &str, names: &[&str], line: &str, pid: i32, status: i32) -> Vec<String> {
    let mut worker = Daemon::new(name.to_string());
    let mut trace = Vec::new();
    let mut at_hand = String::new();
    loop {
        let (text, event) = match worker.action() {
            DaemonAction::OpenFile => ("open".to_string(), DaemonEvent::Done),
            DaemonAction::LockExclusive => ("lock".to_string(), DaemonEvent::Done),
            DaemonAction::ListQueue => ("list".to_string(), DaemonEvent::Names(strings(names))),
            DaemonAction::Wait(WaitAction::Open { name }) => {
                at_hand = name.clone();
                (format!("wait open {}", name), DaemonEvent::Answer(!name.ends_with(".8")))
            }
            DaemonAction::Wait(WaitAction::Probe) => {
                ("wait probe".to_string(), DaemonEvent::Answer(at_hand.ends_with(".7")))
            }
            DaemonAction::Wait(WaitAction::Block) => {
                ("wait block".to_string(), DaemonEvent::Answer(true))
            }
            DaemonAction::Wait(action) => panic!("{:?}", action),
            DaemonAction::ReadFile => {
                ("read".to_string(), DaemonEvent::Content(line.as_bytes().to_vec()))
            }
            DaemonAction::WriteSeparator(text) => (format!("write {:?}", text), DaemonEvent::Done),
            DaemonAction::MarkExecutable => ("mark".to_string(), DaemonEvent::Done),
            DaemonAction::Redirect => ("redirect".to_string(), DaemonEvent::Done),
            DaemonAction::Fork => ("fork".to_string(), DaemonEvent::Forked(pid)),
            DaemonAction::Exec(args) => (format!("exec {:?}", args), DaemonEvent::Done),
            DaemonAction::ExitChild(code) => {
                trace.push(format!("exit child {}", code));
                return trace;
            }
            DaemonAction::Reap => ("reap".to_string(), DaemonEvent::Ended(status)),
            DaemonAction::WriteTrailer(text) => (format!("write {:?}", text), DaemonEvent::Done),
            DaemonAction::Move(id, place) => {
                (format!("move {} {:?}", id.to_string(), place), DaemonEvent::Done)
            }
            DaemonAction::Exit(code) => {
                trace.push(format!("exit {}", code));
                return trace;
            }
            DaemonAction::Abort(error) => {
                trace.push(format!("abort {}", error.message()));
                return trace;
            }
        };
        trace.push(text);
        worker = worker.step(event);
    }
}

#[test]
fn worker_waits_then_runs_then_reports() {
    let names = [",30.1", ",20.2", ",10.7", ",5.8", ",15.9", ".1.1", "notes"];
    assert_eq!(
        run(",20.2", &names, "exec echo 'a b'\n", 99, 3 << 8),
        vec![
            "open",
            "lock",
            "list",
            "wait open ,00000000005.8",
            "wait open ,00000000010.7",
            "wait probe",
            "wait block",
            "wait open ,00000000015.9",
            "wait probe",
            "read",
            "write \"\\n\\n\"",
            "mark",
            "redirect",
            "fork",
            "reap",
            "write \"\\n\\n+ exit=3\\n\"",
            "move ,00000000020.2 Fail",
            "exit 3",
        ]
    );
}

#[test]
fn first_job_runs_at_once() {
    let trace = run(",1.1", &[",1.1", ",2.1"], "exec true\n", 99, 0);
    assert_eq!(trace[3], "read");
    assert_eq!(trace[trace.len() - 2], "move ,00000000001.1 Done");
    assert_eq!(trace[trace.len() - 1], "exit 0");
}

#[test]
fn new_process_becomes_the_command() {
    let trace = run(",1.1", &[",1.1"], "exec echo 'a b'\n", 0, 0);
    assert_eq!(trace[trace.len() - 2], "exec [\"sh\", \"-c\", \"echo 'a b'\"]");
    assert_eq!(trace[trace.len() - 1], "exit child 127");
}

#[test]
fn worker_gives_up() {
    let trace = run("nonsense", &[",1.1"], "exec true\n", 99, 0);
    assert_eq!(
        trace,
        vec!["open", "lock", "list", "abort daemon: cannot parse own job id from filename"]
    );
    let trace = run(",1.1", &[",1.1"], "exec true\n", -1, 0);
    assert_eq!(trace[trace.len() - 1], "abort daemon: fork failed");
    assert_eq!(DaemonError::ForkFailed.message(), "daemon: fork failed");
    // Bytes that are not UTF-8, in the exec line and behind it.
    let stop = Daemon::ReadFile { id: JobId { timestamp_ms: 1, pid: 1 } };
    match stop.step(DaemonEvent::Content(vec![0x61, 0xff, 0x0a])).action() {
        DaemonAction::Abort(error) => assert_eq!(
            error.message(),
            "daemon: read exec line: stream did not contain valid UTF-8"
        ),
        other => panic!("{:?}", other),
    }
    let go = Daemon::ReadFile { id: JobId { timestamp_ms: 1, pid: 1 } };
    let go = go.step(DaemonEvent::Content(vec![0x61, 0x0a, 0xff]));
    assert!(matches!(go, Daemon::Separate { .. }));
}

#[test]
fn other_outcomes_change_nothing() {
    let worker = Daemon::new(",1.1".to_string()).step(DaemonEvent::Forked(0));
    assert!(matches!(worker.action(), DaemonAction::OpenFile));
}

#[test]
fn exit_codes() {
    assert_eq!(exit_code(0), 0);
    assert_eq!(exit_code(1 << 8), 1);
    assert_eq!(exit_code(255 << 8), 255);
    // Ended by a signal, with and without a core dump.
    assert_eq!(exit_code(15), 143);
    assert_eq!(exit_code(9), 137);
    assert_eq!(exit_code(11 | 0x80), 139);
    assert_eq!(exit_code(126), 254);
    // Stopped, which is neither.
    assert_eq!(exit_code(0x137f), 255);
}

#[test]
fn exit_codes_are_those_of_libc() {
    for status in -70000..70000 {
        let expected = if libc::WIFEXITED(status) {
            libc::WEXITSTATUS(status)
        } else if libc::WIFSIGNALED(status) {
            128 + libc::WTERMSIG(status)
        } else {
            255
        };
        assert_eq!(exit_code(status) as i32, expected, "{}", status);
    }
}

#[test]
fn reports() {
    assert_eq!(trailer(0), "\n\n+ exit=0\n");
    assert_eq!(trailer(143), "\n\n+ exit=143\n");
    assert_eq!(destination(0), Place::Done);
    assert_eq!(destination(1), Place::Fail);
}

#[test]
fn commands_in_lines() {
    assert_eq!(command_in("exec make clean\n"), "make clean");
    assert_eq!(command_in("exec\n"), "exec");
    assert_eq!(command_in("exec \n"), "");
    assert_eq!(command_in("make\n"), "make");
    assert_eq!(command_in("execute\n"), "execute");
    assert_eq!(command_in("exec make"), "make");
    assert_eq!(command_in("exec a\n\n"), "a");
    assert_eq!(command_in("exec \tmake \r\n"), "make");
    assert_eq!(command_in("  make \t\n"), "make");
    assert_eq!(command_in("\u{a0}ls\n"), "ls");
    assert_eq!(command_in("exec  if x\n"), "\\if x");
    assert_eq!(command_in("exec \u{a0}x\u{3000} \n"), "\u{a0}x\u{3000}");
    assert_eq!(command_in(""), "");
}

#[test]
fn queued_command_is_run() {
    let command = |args: &[&str]| command_in(&build_exec_line(args));
    assert_eq!(command(&["echo", "a b", "it's"]), "echo 'a b' 'it'\\''s'");
    assert_eq!(command(&["printf", "%s", "a\nb"]), "printf %s 'a\nb'");
    assert_eq!(command(&["echo", "\n"]), "echo '\n'");
    assert_eq!(command(&["echo", "\u{3000}"]), "echo \u{3000}");
    assert_eq!(command(&["\u{a0}", "x"]), "\u{a0} x");
}

#[test]
fn reserved_words_are_programs() {
    let command = |args: &[&str]| command_in(&build_exec_line(args));
    for word in ["if", "then", "else", "elif", "fi", "do", "done", "case", "esac", "while", "until",
        "for", "in", "function", "select", "namespace", "time", "coproc"]
    {
        assert_eq!(command(&[word]), format!("\\{}", word));
        assert_eq!(command(&[word, "x"]), format!("\\{} x", word));
        assert_eq!(command(&["echo", word]), format!("echo {}", word));
    }
    assert_eq!(command(&["iffy", "x"]), "iffy x");
    assert_eq!(command(&["!"]), "'!'");
}

#[test]
fn worker_runs_an_argument_with_a_newline() {
    let line = build_exec_line(&["printf", "%s", "a\nb"]);
    let trace = run(",1.1", &[",1.1"], &line, 0, 0);
    assert_eq!(trace[trace.len() - 2], "exec [\"sh\", \"-c\", \"printf %s 'a\\nb'\"]");
}

#[test]
fn whole_job_file() {
    let args = ["printf", "%s", "it's\nfine"];
    let line = build_exec_line(&args);
    let mut content = line.clone();
    let mut worker = Daemon::ReadFile { id: JobId { timestamp_ms: 1, pid: 1 } };
    loop {
        let event = match worker.action() {
            DaemonAction::ReadFile => DaemonEvent::Content(content.clone().into_bytes()),
            DaemonAction::WriteSeparator(text) | DaemonAction::WriteTrailer(text) => {
                content.push_str(&text);
                DaemonEvent::Done
            }
            DaemonAction::Fork => DaemonEvent::Forked(7),
            DaemonAction::Reap => {
                content.push_str("it's\nfine");
                DaemonEvent::Ended(9)
            }
            DaemonAction::Exit(code) => {
                assert_eq!(code, 137);
                break;
            }
            _ => DaemonEvent::Done,
        };
        worker = worker.step(event);
    }
    assert_eq!(content, format!("{}\n\nit's\nfine\n\n+ exit=137\n", line));
}

#[test]
fn older_jobs_are_those_before() {
    let job = |t, p| JobId { timestamp_ms: t, pid: p };
    let jobs = vec![job(1, 1), job(1, 2), job(2, 1), job(3, 1)];
    assert_eq!(older_jobs(&jobs, job(2, 1)), vec![job(1, 1), job(1, 2)]);
    assert_eq!(older_jobs(&jobs, job(1, 1)), vec![]);
    assert_eq!(older_jobs(&jobs, job(9, 9)), jobs);
}
