use nq::exec::build_exec_line;
use nq::follow::{FollowEvent, FollowRun};
use nq::line::{output_start, read_exec_line};

#[test]
fn done_job_is_printed_at_once() {
    let mut run = FollowRun::new();
    let mut seen = vec![run];
    for event in [
        FollowEvent::Done,
        FollowEvent::Done,
        FollowEvent::Running(false),
        FollowEvent::Done,
    ] {
        run = run.step(event);
        seen.push(run);
    }
    assert_eq!(
        seen,
        vec![
            FollowRun::Open,
            FollowRun::SeekEnd,
            FollowRun::Probe,
            FollowRun::PrintOutput,
            FollowRun::Finished,
        ]
    );
}

#[test]
fn running_job_is_followed_to_its_end() {
    let mut run = FollowRun::new();
    let mut written = 0;
    let mut drained = false;
    let mut reads = vec![0, 0, 5, 0, 2, 3];
    let mut probes = vec![false, true, true];
    while run != FollowRun::Finished {
        let event = match run {
            FollowRun::Probe | FollowRun::Recheck => FollowEvent::Running(probes.pop().unwrap()),
            FollowRun::Read => FollowEvent::Bytes(reads.pop().unwrap()),
            FollowRun::Write(n) => {
                written += n;
                FollowEvent::Done
            }
            FollowRun::Drain => {
                drained = true;
                FollowEvent::Done
            }
            _ => FollowEvent::Done,
        };
        run = run.step(event);
    }
    assert_eq!(written, 10);
    assert_eq!(reads, vec![0]);
    assert!(drained && probes.is_empty());
}

#[test]
fn other_outcomes_leave_following_as_it_is() {
    assert_eq!(FollowRun::Read.step(FollowEvent::Done), FollowRun::Read);
    assert_eq!(FollowRun::Finished.step(FollowEvent::Done), FollowRun::Finished);
}

/// Follows a file that holds `content` at the end, `from` bytes of it at the start, and is read in
/// pieces of at most three bytes; returns what is printed.
fn shown(content: &[u8], from: usize, running: bool) -> Vec<u8> {
    let mut run = FollowRun::new();
    let mut at = 0;
    let mut held: Vec<u8> = Vec::new();
    let mut out: Vec<u8> = Vec::new();
    let mut there = from;
    let mut rechecks = 0;
    while run != FollowRun::Finished {
        let event = match run {
            FollowRun::SeekEnd => {
                at = from;
                FollowEvent::Done
            }
            FollowRun::Probe => FollowEvent::Running(running),
            FollowRun::Await => {
                there = (there + 5).min(content.len());
                FollowEvent::Done
            }
            FollowRun::Read => {
                let to = (at + 3).min(there);
                held = content[at..to].to_vec();
                at = to;
                FollowEvent::Bytes(held.len())
            }
            FollowRun::Write(n) => {
                out.extend(&held[..n]);
                FollowEvent::Done
            }
            FollowRun::Recheck => {
                rechecks += 1;
                FollowEvent::Running(rechecks < 2)
            }
            FollowRun::Drain => {
                out.extend(&content[at..]);
                FollowEvent::Done
            }
            FollowRun::PrintOutput => {
                out.extend(&content[output_start(content)..]);
                FollowEvent::Done
            }
            _ => FollowEvent::Done,
        };
        run = run.step(event);
    }
    out
}

#[test]
fn what_is_printed_is_what_the_job_prints() {
    let content = "exec make\n\n\none two three four five\n\n\n+ exit=0\n".as_bytes();
    for from in [10, 12, 20, content.len()] {
        assert_eq!(shown(content, from, true), content[from..].to_vec());
    }
    assert_eq!(shown(content, content.len(), false), content[10..].to_vec());
}

#[test]
fn output_is_behind_the_exec_line() {
    let content = "exec make\n\n\nhello\n";
    assert_eq!(&content[output_start(content.as_bytes())..], "\n\nhello\n");
    assert_eq!(output_start("exec".as_bytes()), 4);
    assert_eq!(output_start(&[]), 0);
    assert_eq!(output_start("\n".as_bytes()), 1);
    assert_eq!(output_start("exec a\\".as_bytes()), 7);
    assert_eq!(output_start("exec 'a\n".as_bytes()), 8);
    // Double quotes, as a job file written by hand may have them.
    assert_eq!(output_start("\"'\"\nx\n".as_bytes()), 4);
    assert_eq!(output_start("exec \"it's\" \"a\nb\"\nout\n".as_bytes()), 18);
    assert_eq!(output_start("exec \"\\\"\n\"\nout\n".as_bytes()), 11);
}

#[test]
fn exec_line_is_found_whole() {
    let commands: [&[&str]; 8] = [
        &[],
        &["printf", "%s", "a\nb"],
        &["\n"],
        &["'", "\n'\n", "x"],
        &["it's", "\\", "\\\n"],
        &["\u{3000}\n\u{20ac}", ""],
        &["''\n''"],
        &["make"],
    ];
    for args in commands {
        let line = build_exec_line(args);
        for output in ["", "\n\nhello\n", "'\n", "\\"] {
            let content = format!("{}{}", line, output);
            assert_eq!(output_start(content.as_bytes()), line.len(), "{}", content);
            assert_eq!(read_exec_line(content.as_bytes()), Some(line.clone()));
        }
    }
}
