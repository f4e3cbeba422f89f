use nq::term::{
    open_window, queued_job_id, window_command, window_opened, Multiplexer, TermError,
};
use nq::text::{trim, white_space, Space};

#[test]
fn id_of_the_queued_job() {
    assert_eq!(queued_job_id(true, ",14f6f3034f8.17035\n").unwrap(), ",14f6f3034f8.17035");
    let e = queued_job_id(true, " \n").unwrap_err();
    assert_eq!(
        e.message(),
        "nq did not produce a job ID (try running 'nq CMD...' directly)"
    );
    let e = queued_job_id(false, "nq: error: no\n").unwrap_err();
    assert_eq!(e.message(), "nq failed:\nnq: error: no\n");
}

#[test]
fn window_stays_open() {
    assert_eq!(
        window_command(",abc.1"),
        "nqtail ',abc.1' 2>/dev/null; cat >/dev/null"
    );
}

#[test]
fn windows() {
    let w = open_window(",a.1", true, true).unwrap();
    assert_eq!(w.multiplexer, Multiplexer::Tmux);
    assert_eq!(w.args, vec!["new-window".to_string(), window_command(",a.1")]);
    let w = open_window(",a.1", false, true).unwrap();
    assert_eq!(w.multiplexer, Multiplexer::Screen);
    assert_eq!(w.args, vec![window_command(",a.1")]);
    let e = open_window(",a.1", false, false).unwrap_err();
    assert_eq!(
        e.message(),
        "neither tmux (TMUX) nor screen (STY) detected\nRun nqterm inside a tmux or screen session"
    );
}

#[test]
fn window_that_fails() {
    assert!(window_opened(Multiplexer::Tmux, true, "exit status: 0").is_ok());
    let e = window_opened(Multiplexer::Tmux, false, "exit status: 1").unwrap_err();
    assert_eq!(e.message(), "tmux new-window exited with status exit status: 1");
    let e = window_opened(Multiplexer::Screen, false, "exit status: 2").unwrap_err();
    assert!(matches!(e, TermError::WindowFailed(Multiplexer::Screen, _)));
    assert_eq!(e.message(), "screen exited with status exit status: 2");
}

#[test]
fn white_space_is_that_of_std() {
    for code in 0..=0x10ffffu32 {
        if let Some(c) = char::from_u32(code) {
            assert_eq!(white_space(c), c.is_whitespace(), "{}", code);
        }
    }
}

#[test]
fn trimming() {
    for s in ["", " ", "a", " a ", "\u{a0}a b\u{3000}\n", "\n\n", "x\u{200b}"] {
        assert_eq!(trim(s, Space::Unicode), s.trim());
        let ascii = |c: char| c.is_whitespace() && c.is_ascii();
        assert_eq!(trim(s, Space::Ascii), s.trim_matches(ascii));
    }
}
