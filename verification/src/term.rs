//! What `nqterm` does between queueing a job and opening a window that follows it.
use crate::exec::{is_unsafe, quoted};
use crate::shell::{law_command_with_quoted_argument, lemma_own_names, sh_quote, words};
use crate::text::{concat, trim, trimmed, Space};
use vstd::prelude::*;
use vstd::string::*;

verus! {

/// Why no window was opened.
#[derive(Debug)]
pub enum TermError {
    /// `nq` failed, and said this.
    NqFailed(String),
    /// `nq` printed no job ID.
    NoJobId,
    /// There is neither tmux nor screen around.
    NoMultiplexer,
    /// The multiplexer failed, with this status.
    WindowFailed(Multiplexer, String),
}

impl TermError {
    /// What is shown of the error.
    pub fn message(&self) -> (r: String)
        ensures
            match self {
                TermError::NqFailed(said) => r@ == "nq failed:\n"@ + said@,
                TermError::NoJobId => r@
                    == "nq did not produce a job ID (try running 'nq CMD...' directly)"@,
                TermError::NoMultiplexer => r@
                    == "neither tmux (TMUX) nor screen (STY) detected\nRun nqterm inside a tmux or screen session"@,
                TermError::WindowFailed(Multiplexer::Tmux, status) => r@
                    == "tmux new-window exited with status "@ + status@,
                TermError::WindowFailed(Multiplexer::Screen, status) => r@
                    == "screen exited with status "@ + status@,
            },
    {
        match self {
            TermError::NqFailed(said) => concat("nq failed:\n", said.as_str()),
            TermError::NoJobId =>
                "nq did not produce a job ID (try running 'nq CMD...' directly)".to_string(),
            TermError::NoMultiplexer =>
                "neither tmux (TMUX) nor screen (STY) detected\nRun nqterm inside a tmux or screen session".to_string(),
            TermError::WindowFailed(Multiplexer::Tmux, status) => concat(
                "tmux new-window exited with status ",
                status.as_str(),
            ),
            TermError::WindowFailed(Multiplexer::Screen, status) => concat(
                "screen exited with status ",
                status.as_str(),
            ),
        }
    }
}

/// A program that keeps several windows in one terminal.
#[derive(Debug, Clone, Copy, PartialEq, Eq, Structural)]
pub enum Multiplexer {
    Tmux,
    Screen,
}

/// The ID of the job that `nq` has queued. `success` says whether `nq` succeeded, and `stderr` is
/// what it printed there: the ID and the end of the line, or what went wrong.
pub fn queued_job_id(success: bool, stderr: &str) -> (r: Result<String, TermError>)
    ensures
        !success ==> (r matches Err(TermError::NqFailed(said)) && said@ == stderr@),
        success && trimmed(stderr@, Space::Unicode).len() == 0 ==> r matches Err(
            TermError::NoJobId,
        ),
        success && trimmed(stderr@, Space::Unicode).len() > 0 ==> (r matches Ok(id) && id@
            == trimmed(stderr@, Space::Unicode)),
{
    if !success {
        return Err(TermError::NqFailed(stderr.to_string()));
    }
    let id = trim(stderr, Space::Unicode);
    if id.as_str().is_empty() {
        Err(TermError::NoJobId)
    } else {
        Ok(id)
    }
}

/// The command that runs in the window: it follows the job, then waits, so that the window stays.
pub open spec fn window_text(job_id: Seq<char>) -> Seq<char> {
    "nqtail "@ + quoted(job_id) + " 2>/dev/null; cat >/dev/null"@
}

/// The command that runs in the window for the job `job_id`.
pub fn window_command(job_id: &str) -> (r: String)
    ensures
        r@ == window_text(job_id@),
{
    let quoted_id = sh_quote(job_id);
    let follow = concat("nqtail ", quoted_id.as_str());
    concat(follow.as_str(), " 2>/dev/null; cat >/dev/null")
}

/// How to open a window.
#[derive(Debug)]
pub struct Window {
    /// The program that opens it.
    pub multiplexer: Multiplexer,
    /// The arguments for that program.
    pub args: Vec<String>,
}

/// How to open a window that follows the job `job_id`, where `in_tmux` and `in_screen` say
/// whether tmux and screen are around. Of both, tmux is taken.
pub fn open_window(job_id: &str, in_tmux: bool, in_screen: bool) -> (r: Result<Window, TermError>)
    ensures
        in_tmux ==> (r matches Ok(w) && w.multiplexer == Multiplexer::Tmux && w.args@.len() == 2
            && w.args@[0]@ == "new-window"@ && w.args@[1]@ == window_text(job_id@)),
        !in_tmux && in_screen ==> (r matches Ok(w) && w.multiplexer == Multiplexer::Screen
            && w.args@.len() == 1 && w.args@[0]@ == window_text(job_id@)),
        !in_tmux && !in_screen ==> r matches Err(TermError::NoMultiplexer),
{
    let mut args: Vec<String> = Vec::new();
    if in_tmux {
        args.push("new-window".to_string());
        args.push(window_command(job_id));
        Ok(Window { multiplexer: Multiplexer::Tmux, args })
    } else if in_screen {
        args.push(window_command(job_id));
        Ok(Window { multiplexer: Multiplexer::Screen, args })
    } else {
        Err(TermError::NoMultiplexer)
    }
}

/// Whether the window was opened, where `success` says whether the multiplexer succeeded and
/// `status` is the status it ended with, as it is shown.
pub fn window_opened(multiplexer: Multiplexer, success: bool, status: &str) -> (r: Result<
    (),
    TermError,
>)
    ensures
        success ==> r is Ok,
        !success ==> (r matches Err(TermError::WindowFailed(m, text)) && m == multiplexer && text@
            == status@),
{
    if success {
        Ok(())
    } else {
        Err(TermError::WindowFailed(multiplexer, status.to_string()))
    }
}

/// What the window runs starts with `nqtail` and, as its one argument, the very ID of the job,
/// whatever characters that holds.
pub proof fn law_window_follows_job(job_id: Seq<char>)
    ensures
        ({
            let follow = "nqtail "@ + quoted(job_id);
            &&& window_text(job_id) == follow + " 2>/dev/null; cat >/dev/null"@
            &&& words(follow) == Some(seq!["nqtail"@, job_id])
        }),
{
    reveal_strlit("nqtail ");
    reveal_strlit("nqtail");
    let name = "nqtail"@;
    let follow = "nqtail "@ + quoted(job_id);
    assert(follow =~= name + seq![' '] + quoted(job_id));
    assert forall|i: int| 0 <= i < name.len() implies !is_unsafe(#[trigger] name[i]) by {
        assert(name[i] == 'n' || name[i] == 'q' || name[i] == 't' || name[i] == 'a' || name[i]
            == 'i' || name[i] == 'l');
    }
    lemma_own_names();
    law_command_with_quoted_argument(name, job_id);
}

} // verus!
