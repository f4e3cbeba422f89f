//! The worker that runs a queued job: it waits for the jobs that were queued earlier, runs the
//! command in the job file, and reports how that ended.
use crate::dir::{list_names, listing, oldest_first, string_texts, Place};
use crate::job::{before, law_order_of_jobs, read_name, JobId};
use crate::line::{exec_line_of, read_exec_line};
use crate::shell::{starts_reserved, unreserved};
use crate::spool::lemma_listing;
use crate::status::{
    code_of, destination, destination_of, exit_code, trailer, trailer_text, CONTINUED,
};
use crate::text::{from_chars, to_chars, trim, trimmed, Space};
use crate::wait::{
    wait_action, wait_advanced, wait_finished, wait_start, WaitAction, WaitActionView, WaitRun,
    WaitView,
};
use vstd::prelude::*;
use vstd::string::*;

verus! {

/// The jobs at the start of `jobs`, up to the first that does not come before `id`.
pub open spec fn older_than(jobs: Seq<JobId>, id: JobId) -> Seq<JobId>
    decreases jobs.len(),
{
    if jobs.len() == 0 || !before(jobs[0], id) {
        seq![]
    } else {
        seq![jobs[0]] + older_than(jobs.drop_first(), id)
    }
}

/// The jobs at the start of `jobs`, up to the first that does not come before `id`.
pub fn older_jobs(jobs: &Vec<JobId>, id: JobId) -> (r: Vec<JobId>)
    ensures
        r@ == older_than(jobs@, id),
        r@.len() <= jobs@.len(),
        r@ == jobs@.take(r@.len() as int),
        forall|i: int|
            0 <= i < r@.len() ==> (#[trigger] jobs@[i]).timestamp_ms < id.timestamp_ms || (
            jobs@[i].timestamp_ms == id.timestamp_ms && jobs@[i].pid < id.pid),
        r@.len() < jobs@.len() ==> {
            let next = jobs@[r@.len() as int];
            next.timestamp_ms > id.timestamp_ms || (next.timestamp_ms == id.timestamp_ms && next.pid
                >= id.pid)
        },
{
    let mut older: Vec<JobId> = Vec::new();
    let mut i: usize = 0;
    assert(jobs@.skip(0) =~= jobs@);
    assert(older@ + older_than(jobs@, id) =~= older_than(jobs@, id));
    while i < jobs.len() && jobs[i] < id
        invariant
            i <= jobs@.len(),
            older@ + older_than(jobs@.skip(i as int), id) == older_than(jobs@, id),
            older@ == jobs@.take(i as int),
            forall|k: int|
                0 <= k < i ==> (#[trigger] jobs@[k]).timestamp_ms < id.timestamp_ms || (
                jobs@[k].timestamp_ms == id.timestamp_ms && jobs@[k].pid < id.pid),
        decreases jobs@.len() - i,
    {
        proof {
            let rest = jobs@.skip(i as int);
            assert(rest[0] == jobs@[i as int]);
            assert(rest.drop_first() =~= jobs@.skip(i + 1));
            assert(older@.push(jobs@[i as int]) + older_than(jobs@.skip(i + 1), id) =~= older@
                + older_than(rest, id));
        }
        older.push(jobs[i]);
        i = i + 1;
    }
    proof {
        let rest = jobs@.skip(i as int);
        if i < jobs@.len() {
            assert(rest[0] == jobs@[i as int]);
        }
        assert(older@ =~= older@ + older_than(rest, id));
    }
    older
}

/// In a queue with the oldest job first, the jobs that a worker waits for are all that were queued
/// before its own, and no other.
pub proof fn law_older_jobs(jobs: Seq<JobId>, id: JobId)
    requires
        oldest_first(jobs),
    ensures
        forall|j: JobId|
            #[trigger] older_than(jobs, id).contains(j) <==> jobs.contains(j) && before(j, id),
    decreases jobs.len(),
{
    let older = older_than(jobs, id);
    if jobs.len() > 0 && before(jobs[0], id) {
        let rest = jobs.drop_first();
        assert forall|i: int, j: int| 0 <= i < j < rest.len() implies !before(
            #[trigger] rest[j],
            #[trigger] rest[i],
        ) by {
            assert(rest[j] == jobs[j + 1] && rest[i] == jobs[i + 1]);
        }
        law_older_jobs(rest, id);
        let more = older_than(rest, id);
        assert forall|j: JobId| #[trigger] older.contains(j) <==> jobs.contains(j) && before(
            j,
            id,
        ) by {
            if older.contains(j) {
                let k = choose|k: int| 0 <= k < older.len() && older[k] == j;
                if k == 0 {
                    assert(jobs[0] == j);
                } else {
                    assert(more[k - 1] == j);
                    assert(more.contains(j));
                    let m = choose|m: int| 0 <= m < rest.len() && rest[m] == j;
                    assert(jobs[m + 1] == j);
                }
            }
            if jobs.contains(j) && before(j, id) {
                let m = choose|m: int| 0 <= m < jobs.len() && jobs[m] == j;
                if m == 0 {
                    assert(older[0] == j);
                } else {
                    assert(rest[m - 1] == j);
                    assert(rest.contains(j));
                    assert(more.contains(j));
                    let k = choose|k: int| 0 <= k < more.len() && more[k] == j;
                    assert(older[k + 1] == j);
                }
            }
        }
    } else {
        assert forall|j: JobId| #[trigger] older.contains(j) <==> jobs.contains(j) && before(
            j,
            id,
        ) by {
            if jobs.contains(j) && before(j, id) {
                let m = choose|m: int| 0 <= m < jobs.len() && jobs[m] == j;
                if m > 0 {
                    assert(!before(jobs[m], jobs[0]));
                }
            }
        }
    }
}

/// The start of an exec line that its command stands behind.
pub open spec fn exec_prefix() -> Seq<char> {
    seq!['e', 'x', 'e', 'c', ' ']
}

/// The command in the exec line `line`: what is behind `exec `, without the ASCII white space at its
/// ends, and with a backslash in front where it starts with a word that a shell reserves. Other white
/// space belongs to the arguments. A line that starts otherwise is a command as it stands, without any
/// white space at its ends.
pub open spec fn command_of(line: Seq<char>) -> Seq<char> {
    if line.len() >= 5 && line.take(5) == exec_prefix() {
        unreserved(trimmed(line.skip(5), Space::Ascii))
    } else {
        trimmed(line, Space::Unicode)
    }
}

/// The command in a job file with the content `content`; `None` where its exec line is not UTF-8.
pub open spec fn command_in_file(content: Seq<u8>) -> Option<Seq<char>> {
    match exec_line_of(content) {
        Some(line) => Some(command_of(line)),
        None => None,
    }
}

/// The command in the exec line `line`.
pub fn command_in(line: &str) -> (r: String)
    ensures
        r@ == command_of(line@),
{
    let chars = to_chars(line);
    if chars.len() >= 5 && chars[0] == 'e' && chars[1] == 'x' && chars[2] == 'e' && chars[3] == 'c'
        && chars[4] == ' ' {
        assert(line@.take(5) =~= exec_prefix());
        let rest = from_chars(&chars, 5, chars.len());
        assert(rest@ =~= line@.skip(5));
        let command = trim(rest.as_str(), Space::Ascii);
        if starts_reserved(command.as_str()) {
            let mut marked = String::new();
            marked.push('\\');
            marked.append(command.as_str());
            assert(marked@ =~= seq!['\\'] + command@);
            marked
        } else {
            command
        }
    } else {
        proof {
            if line@.len() >= 5 && line@.take(5) == exec_prefix() {
                assert(line@[0] == exec_prefix()[0]);
                assert(line@[1] == exec_prefix()[1]);
                assert(line@[2] == exec_prefix()[2]);
                assert(line@[3] == exec_prefix()[3]);
                assert(line@[4] == exec_prefix()[4]);
            }
        }
        trim(line, Space::Unicode)
    }
}

/// Why a worker gives up.
#[derive(Debug, Clone, Copy, PartialEq, Eq, Structural)]
pub enum DaemonError {
    /// The name of its job file is not that of a job.
    BadName,
    /// The exec line is not UTF-8.
    NotText,
    /// No process could be made for the command.
    ForkFailed,
}

impl DaemonError {
    /// What is shown of the error.
    pub fn message(&self) -> (r: String)
        ensures
            match self {
                DaemonError::BadName => r@
                    == "daemon: cannot parse own job id from filename"@,
                DaemonError::NotText => r@
                    == "daemon: read exec line: stream did not contain valid UTF-8"@,
                DaemonError::ForkFailed => r@ == "daemon: fork failed"@,
            },
    {
        match self {
            DaemonError::BadName => "daemon: cannot parse own job id from filename".to_string(),
            DaemonError::NotText =>
                "daemon: read exec line: stream did not contain valid UTF-8".to_string(),
            DaemonError::ForkFailed => "daemon: fork failed".to_string(),
        }
    }
}

/// The state of a worker, by what it is to do next.
#[derive(Debug)]
pub enum Daemon {
    /// Take over its job file, which has the name `name`.
    OpenFile { name: String },
    /// Lock that file.
    LockFile { name: String },
    /// Read the names in the queue directory.
    ListQueue { name: String },
    /// Wait for the jobs that were queued before its own.
    WaitOlder { id: JobId, wait: WaitRun },
    /// Read what the job file holds.
    ReadFile { id: JobId },
    /// Write the lines that part the command from its output.
    Separate { id: JobId, command: String },
    /// Mark the job file as executable.
    MarkExecutable { id: JobId, command: String },
    /// Let what it prints go to the job file.
    Redirect { id: JobId, command: String },
    /// Make a process for the command.
    Fork { id: JobId, command: String },
    /// It is that process: become the command.
    RunCommand { command: String },
    /// It could not become the command: end.
    RunFailed,
    /// Wait for the end of the process.
    Reap { id: JobId },
    /// Write how the process ended.
    Report { id: JobId, code: u8 },
    /// Move the job file.
    Move { id: JobId, code: u8 },
    /// End.
    Exit { code: u8 },
    /// Give up.
    Aborted { error: DaemonError },
}

/// A [`Daemon`] with its texts.
pub enum DaemonView {
    OpenFile { name: Seq<char> },
    LockFile { name: Seq<char> },
    ListQueue { name: Seq<char> },
    WaitOlder { id: JobId, wait: WaitView },
    ReadFile { id: JobId },
    Separate { id: JobId, command: Seq<char> },
    MarkExecutable { id: JobId, command: Seq<char> },
    Redirect { id: JobId, command: Seq<char> },
    Fork { id: JobId, command: Seq<char> },
    RunCommand { command: Seq<char> },
    RunFailed,
    Reap { id: JobId },
    Report { id: JobId, code: u8 },
    Move { id: JobId, code: u8 },
    Exit { code: u8 },
    Aborted { error: DaemonError },
}

impl View for Daemon {
    type V = DaemonView;

    open spec fn view(&self) -> DaemonView {
        match self {
            Daemon::OpenFile { name } => DaemonView::OpenFile { name: name@ },
            Daemon::LockFile { name } => DaemonView::LockFile { name: name@ },
            Daemon::ListQueue { name } => DaemonView::ListQueue { name: name@ },
            Daemon::WaitOlder { id, wait } => DaemonView::WaitOlder { id: *id, wait: wait@ },
            Daemon::ReadFile { id } => DaemonView::ReadFile { id: *id },
            Daemon::Separate { id, command } => DaemonView::Separate {
                id: *id,
                command: command@,
            },
            Daemon::MarkExecutable { id, command } => DaemonView::MarkExecutable {
                id: *id,
                command: command@,
            },
            Daemon::Redirect { id, command } => DaemonView::Redirect {
                id: *id,
                command: command@,
            },
            Daemon::Fork { id, command } => DaemonView::Fork { id: *id, command: command@ },
            Daemon::RunCommand { command } => DaemonView::RunCommand { command: command@ },
            Daemon::RunFailed => DaemonView::RunFailed,
            Daemon::Reap { id } => DaemonView::Reap { id: *id },
            Daemon::Report { id, code } => DaemonView::Report { id: *id, code: *code },
            Daemon::Move { id, code } => DaemonView::Move { id: *id, code: *code },
            Daemon::Exit { code } => DaemonView::Exit { code: *code },
            Daemon::Aborted { error } => DaemonView::Aborted { error: *error },
        }
    }
}

/// The next thing that a worker does.
#[derive(Debug)]
pub enum DaemonAction {
    /// Take over the job file, which the process that queued the job has left open and locked. Where
    /// it has not, open the file for reading and writing.
    OpenFile,
    /// Lock it for this process alone; wait until that succeeds.
    LockExclusive,
    /// Read the names in the queue directory.
    ListQueue,
    /// Go on waiting for earlier jobs.
    Wait(WaitAction),
    /// Read what the job file holds.
    ReadFile,
    /// Write this to the job file.
    WriteSeparator(String),
    /// Mark the job file as executable.
    MarkExecutable,
    /// Let standard output and standard error go to the job file.
    Redirect,
    /// Make a second process.
    Fork,
    /// Become the program that the first of these names, with these as its arguments, and with
    /// nothing to read.
    Exec(Vec<String>),
    /// Say that this failed, and end with this code.
    ExitChild(u8),
    /// Wait until the second process has ended.
    Reap,
    /// Write this to the job file, if that can be done.
    WriteTrailer(String),
    /// Move the file of this job to this place, if there is one and it can be done.
    Move(JobId, Place),
    /// End with this code.
    Exit(u8),
    /// Give up.
    Abort(DaemonError),
}

/// A [`DaemonAction`] with its texts.
pub enum DaemonActionView {
    OpenFile,
    LockExclusive,
    ListQueue,
    Wait(WaitActionView),
    ReadFile,
    WriteSeparator(Seq<char>),
    MarkExecutable,
    Redirect,
    Fork,
    Exec(Seq<Seq<char>>),
    ExitChild(u8),
    Reap,
    WriteTrailer(Seq<char>),
    Move(JobId, Place),
    Exit(u8),
    Abort(DaemonError),
}

impl View for DaemonAction {
    type V = DaemonActionView;

    open spec fn view(&self) -> DaemonActionView {
        match self {
            DaemonAction::OpenFile => DaemonActionView::OpenFile,
            DaemonAction::LockExclusive => DaemonActionView::LockExclusive,
            DaemonAction::ListQueue => DaemonActionView::ListQueue,
            DaemonAction::Wait(action) => DaemonActionView::Wait(action@),
            DaemonAction::ReadFile => DaemonActionView::ReadFile,
            DaemonAction::WriteSeparator(text) => DaemonActionView::WriteSeparator(text@),
            DaemonAction::MarkExecutable => DaemonActionView::MarkExecutable,
            DaemonAction::Redirect => DaemonActionView::Redirect,
            DaemonAction::Fork => DaemonActionView::Fork,
            DaemonAction::Exec(args) => DaemonActionView::Exec(string_texts(args@)),
            DaemonAction::ExitChild(code) => DaemonActionView::ExitChild(*code),
            DaemonAction::Reap => DaemonActionView::Reap,
            DaemonAction::WriteTrailer(text) => DaemonActionView::WriteTrailer(text@),
            DaemonAction::Move(id, place) => DaemonActionView::Move(*id, *place),
            DaemonAction::Exit(code) => DaemonActionView::Exit(*code),
            DaemonAction::Abort(error) => DaemonActionView::Abort(*error),
        }
    }
}

/// What became of an action.
#[derive(Debug)]
pub enum DaemonEvent {
    /// It was done.
    Done,
    /// It was done, and this is the answer that it asks for.
    Answer(bool),
    /// The names in the queue directory.
    Names(Vec<String>),
    /// What the job file holds.
    Content(Vec<u8>),
    /// What the call that makes a process returned: -1 where it failed, 0 in the new process, else
    /// the new process.
    Forked(i32),
    /// The wait status of the process that has ended.
    Ended(i32),
}

/// A [`DaemonEvent`] with its texts.
pub enum DaemonEventView {
    Done,
    Answer(bool),
    Names(Seq<Seq<char>>),
    Content(Seq<u8>),
    Forked(i32),
    Ended(i32),
}

impl View for DaemonEvent {
    type V = DaemonEventView;

    open spec fn view(&self) -> DaemonEventView {
        match self {
            DaemonEvent::Done => DaemonEventView::Done,
            DaemonEvent::Answer(yes) => DaemonEventView::Answer(*yes),
            DaemonEvent::Names(names) => DaemonEventView::Names(string_texts(names@)),
            DaemonEvent::Content(content) => DaemonEventView::Content(content@),
            DaemonEvent::Forked(pid) => DaemonEventView::Forked(*pid),
            DaemonEvent::Ended(status) => DaemonEventView::Ended(*status),
        }
    }
}

/// What is written between the exec line and the output.
pub open spec fn separator_text() -> Seq<char> {
    seq!['\n', '\n']
}

/// The program that runs a command, and its arguments.
pub open spec fn shell_args(command: Seq<char>) -> Seq<Seq<char>> {
    seq![seq!['s', 'h'], seq!['-', 'c'], command]
}

/// What a worker in the state `d` does next.
pub open spec fn daemon_action(d: DaemonView) -> DaemonActionView {
    match d {
        DaemonView::OpenFile { .. } => DaemonActionView::OpenFile,
        DaemonView::LockFile { .. } => DaemonActionView::LockExclusive,
        DaemonView::ListQueue { .. } => DaemonActionView::ListQueue,
        DaemonView::WaitOlder { wait, .. } => DaemonActionView::Wait(wait_action(wait)),
        DaemonView::ReadFile { .. } => DaemonActionView::ReadFile,
        DaemonView::Separate { .. } => DaemonActionView::WriteSeparator(separator_text()),
        DaemonView::MarkExecutable { .. } => DaemonActionView::MarkExecutable,
        DaemonView::Redirect { .. } => DaemonActionView::Redirect,
        DaemonView::Fork { .. } => DaemonActionView::Fork,
        DaemonView::RunCommand { command } => DaemonActionView::Exec(shell_args(command)),
        DaemonView::RunFailed => DaemonActionView::ExitChild(127),
        DaemonView::Reap { .. } => DaemonActionView::Reap,
        DaemonView::Report { code, .. } => DaemonActionView::WriteTrailer(trailer_text(code)),
        DaemonView::Move { id, code } => DaemonActionView::Move(id, destination_of(code)),
        DaemonView::Exit { code } => DaemonActionView::Exit(code),
        DaemonView::Aborted { error } => DaemonActionView::Abort(error),
    }
}

/// The state of a worker that waits for earlier jobs as long as there are any.
pub open spec fn wait_or_go(id: JobId, wait: WaitView) -> DaemonView {
    if wait_finished(wait) {
        DaemonView::ReadFile { id }
    } else {
        DaemonView::WaitOlder { id, wait }
    }
}

/// The state of a worker after what it did in the state `d` had the outcome `e`. An outcome that
/// the action cannot have changes nothing.
pub open spec fn daemon_next(d: DaemonView, e: DaemonEventView) -> DaemonView {
    match (d, e) {
        (DaemonView::OpenFile { name }, DaemonEventView::Done) => DaemonView::LockFile { name },
        (DaemonView::LockFile { name }, DaemonEventView::Done) => DaemonView::ListQueue { name },
        (DaemonView::ListQueue { name }, DaemonEventView::Names(names)) => match read_name(name) {
            Some(id) => wait_or_go(id, wait_start(older_than(listing(names), id), false)),
            None => DaemonView::Aborted { error: DaemonError::BadName },
        },
        (DaemonView::WaitOlder { id, wait }, DaemonEventView::Answer(yes)) => wait_or_go(
            id,
            wait_advanced(wait, yes),
        ),
        (DaemonView::ReadFile { id }, DaemonEventView::Content(content)) => match command_in_file(
            content,
        ) {
            Some(command) => DaemonView::Separate { id, command },
            None => DaemonView::Aborted { error: DaemonError::NotText },
        },
        (DaemonView::Separate { id, command }, DaemonEventView::Done) =>
            DaemonView::MarkExecutable { id, command },
        (DaemonView::MarkExecutable { id, command }, DaemonEventView::Done) =>
            DaemonView::Redirect { id, command },
        (DaemonView::Redirect { id, command }, DaemonEventView::Done) => DaemonView::Fork {
            id,
            command,
        },
        (DaemonView::Fork { id, command }, DaemonEventView::Forked(pid)) => if pid == -1 {
            DaemonView::Aborted { error: DaemonError::ForkFailed }
        } else if pid == 0 {
            DaemonView::RunCommand { command }
        } else {
            DaemonView::Reap { id }
        },
        (DaemonView::RunCommand { .. }, DaemonEventView::Done) => DaemonView::RunFailed,
        (DaemonView::Reap { id }, DaemonEventView::Ended(status)) => DaemonView::Report {
            id,
            code: code_of(status as int) as u8,
        },
        (DaemonView::Report { id, code }, DaemonEventView::Done) => DaemonView::Move { id, code },
        (DaemonView::Move { code, .. }, DaemonEventView::Done) => DaemonView::Exit { code },
        _ => d,
    }
}

/// Whether a worker in the state `d` can be in the state `t` after what it did had the outcome `e`.
/// There is one state that it can be in, but for the one wait status that systems read differently.
pub open spec fn daemon_steps(d: DaemonView, e: DaemonEventView, t: DaemonView) -> bool {
    ||| t == daemon_next(d, e)
    ||| {
        &&& e == DaemonEventView::Ended(CONTINUED)
        &&& d matches DaemonView::Reap { id } && t == (DaemonView::Report { id, code: 255 })
    }
}

impl Daemon {
    /// A worker for the job whose file has the name `name`.
    pub fn new(name: String) -> (r: Daemon)
        ensures
            r@ == (DaemonView::OpenFile { name: name@ }),
    {
        Daemon::OpenFile { name }
    }

    /// What the worker does next.
    pub fn action(&self) -> (r: DaemonAction)
        ensures
            r@ == daemon_action(self@),
            self matches Daemon::RunCommand { command } ==> (r matches DaemonAction::Exec(args)
                && args@.len() == 3 && args@[0]@ == "sh"@ && args@[1]@ == "-c"@ && args@[2]@
                == command@),
            self matches Daemon::WaitOlder { .. } ==> r is Wait,
            self matches Daemon::Move { id, code } ==> r == DaemonAction::Move(
                *id,
                if *code == 0 {
                    Place::Done
                } else {
                    Place::Fail
                },
            ),
            self matches Daemon::Exit { code } ==> r == DaemonAction::Exit(*code),
            self matches Daemon::Aborted { error } ==> r == DaemonAction::Abort(*error),
    {
        match self {
            Daemon::OpenFile { .. } => DaemonAction::OpenFile,
            Daemon::LockFile { .. } => DaemonAction::LockExclusive,
            Daemon::ListQueue { .. } => DaemonAction::ListQueue,
            Daemon::WaitOlder { wait, .. } => DaemonAction::Wait(wait.action()),
            Daemon::ReadFile { .. } => DaemonAction::ReadFile,
            Daemon::Separate { .. } => {
                let mut text = String::new();
                text.push('\n');
                text.push('\n');
                assert(text@ =~= separator_text());
                DaemonAction::WriteSeparator(text)
            },
            Daemon::MarkExecutable { .. } => DaemonAction::MarkExecutable,
            Daemon::Redirect { .. } => DaemonAction::Redirect,
            Daemon::Fork { .. } => DaemonAction::Fork,
            Daemon::RunCommand { command } => {
                let mut args: Vec<String> = Vec::new();
                args.push("sh".to_string());
                args.push("-c".to_string());
                args.push(command.clone());
                proof {
                    reveal_strlit("sh");
                    reveal_strlit("-c");
                    assert("sh"@ =~= seq!['s', 'h']);
                    assert("-c"@ =~= seq!['-', 'c']);
                    assert(string_texts(args@) =~= shell_args(command@));
                }
                DaemonAction::Exec(args)
            },
            Daemon::RunFailed => DaemonAction::ExitChild(127),
            Daemon::Reap { .. } => DaemonAction::Reap,
            Daemon::Report { code, .. } => DaemonAction::WriteTrailer(trailer(*code)),
            Daemon::Move { id, code } => DaemonAction::Move(*id, destination(*code)),
            Daemon::Exit { code } => DaemonAction::Exit(*code),
            Daemon::Aborted { error } => DaemonAction::Abort(*error),
        }
    }

    /// The worker after its action had the outcome `event`.
    pub fn step(self, event: DaemonEvent) -> (r: Daemon)
        ensures
            daemon_steps(self@, event@, r@),
    {
        match (self, event) {
            (Daemon::OpenFile { name }, DaemonEvent::Done) => Daemon::LockFile { name },
            (Daemon::LockFile { name }, DaemonEvent::Done) => Daemon::ListQueue { name },
            (Daemon::ListQueue { name }, DaemonEvent::Names(names)) => {
                let jobs = list_names(&names);
                proof {
                    lemma_listing(jobs@, string_texts(names@));
                }
                match JobId::from_filename(name.as_str()) {
                    Some(id) => Daemon::wait_or_go(id, WaitRun::new(older_jobs(&jobs, id), false)),
                    None => Daemon::Aborted { error: DaemonError::BadName },
                }
            },
            (Daemon::WaitOlder { id, wait }, DaemonEvent::Answer(yes)) => {
                let mut wait = wait;
                wait.advance(yes);
                Daemon::wait_or_go(id, wait)
            },
            (Daemon::ReadFile { id }, DaemonEvent::Content(content)) => {
                match read_exec_line(content.as_slice()) {
                    Some(line) => Daemon::Separate { id, command: command_in(line.as_str()) },
                    None => Daemon::Aborted { error: DaemonError::NotText },
                }
            },
            (Daemon::Separate { id, command }, DaemonEvent::Done) => Daemon::MarkExecutable {
                id,
                command,
            },
            (Daemon::MarkExecutable { id, command }, DaemonEvent::Done) => Daemon::Redirect {
                id,
                command,
            },
            (Daemon::Redirect { id, command }, DaemonEvent::Done) => Daemon::Fork { id, command },
            (Daemon::Fork { id, command }, DaemonEvent::Forked(pid)) => {
                if pid == -1 {
                    Daemon::Aborted { error: DaemonError::ForkFailed }
                } else if pid == 0 {
                    Daemon::RunCommand { command }
                } else {
                    Daemon::Reap { id }
                }
            },
            (Daemon::RunCommand { .. }, DaemonEvent::Done) => Daemon::RunFailed,
            (Daemon::Reap { id }, DaemonEvent::Ended(status)) => Daemon::Report {
                id,
                code: exit_code(status),
            },
            (Daemon::Report { id, code }, DaemonEvent::Done) => Daemon::Move { id, code },
            (Daemon::Move { id: _, code }, DaemonEvent::Done) => Daemon::Exit { code },
            (same, _) => same,
        }
    }

    fn wait_or_go(id: JobId, wait: WaitRun) -> (r: Daemon)
        ensures
            r@ == wait_or_go(id, wait@),
    {
        if wait.finished() {
            Daemon::ReadFile { id }
        } else {
            Daemon::WaitOlder { id, wait }
        }
    }
}

/// The jobs that a worker waits for are those at the start of the queue, each of an earlier time, or of
/// the same time and a smaller process ID, up to the first that is not.
pub proof fn law_older_jobs_lead(jobs: Seq<JobId>, id: JobId)
    ensures
        ({
            let older = older_than(jobs, id);
            &&& older.len() <= jobs.len()
            &&& older == jobs.take(older.len() as int)
            &&& forall|i: int|
                0 <= i < older.len() ==> (#[trigger] older[i]).timestamp_ms < id.timestamp_ms || (
                older[i].timestamp_ms == id.timestamp_ms && older[i].pid < id.pid)
            &&& older.len() < jobs.len() ==> {
                let next = jobs[older.len() as int];
                next.timestamp_ms > id.timestamp_ms || (next.timestamp_ms == id.timestamp_ms
                    && next.pid >= id.pid)
            }
        }),
    decreases jobs.len(),
{
    let older = older_than(jobs, id);
    if jobs.len() > 0 {
        law_order_of_jobs(jobs[0], id);
        law_order_of_jobs(id, jobs[0]);
    }
    if jobs.len() > 0 && before(jobs[0], id) {
        let rest = jobs.drop_first();
        let more = older_than(rest, id);
        law_older_jobs_lead(rest, id);
        assert forall|i: int| 0 <= i < older.len() implies older[i] == jobs[i] by {
            if i > 0 {
                assert(older[i] == more[i - 1]);
                assert(more[i - 1] == rest[i - 1]);
            }
        }
        assert(older =~= jobs.take(older.len() as int));
        assert forall|i: int| 0 <= i < older.len() implies (#[trigger] older[i]).timestamp_ms
            < id.timestamp_ms || (older[i].timestamp_ms == id.timestamp_ms && older[i].pid
            < id.pid) by {
            if i > 0 {
                assert(older[i] == more[i - 1]);
            }
        }
        if older.len() < jobs.len() {
            assert(jobs[older.len() as int] == rest[more.len() as int]);
        }
    } else {
        assert(older =~= jobs.take(0));
    }
}

/// In a queue with the oldest job first, a worker waits for every job of an earlier time, and for every
/// one of the same time and a smaller process ID, and for no other.
pub proof fn law_earlier_jobs_are_waited_for(jobs: Seq<JobId>, id: JobId, j: JobId)
    requires
        oldest_first(jobs),
    ensures
        older_than(jobs, id).contains(j) <==> jobs.contains(j) && (j.timestamp_ms < id.timestamp_ms
            || (j.timestamp_ms == id.timestamp_ms && j.pid < id.pid)),
{
    law_older_jobs(jobs, id);
    law_order_of_jobs(j, id);
    law_order_of_jobs(id, j);
}

/// A command is run by the shell: the program is `sh`, and its arguments are `-c` and the whole command.
/// The command is parted from its output by two newlines.
pub proof fn law_shell_args(command: Seq<char>)
    ensures
        shell_args(command).len() == 3,
        shell_args(command)[0] == seq!['s', 'h'],
        shell_args(command)[1] == seq!['-', 'c'],
        shell_args(command)[2] == command,
        separator_text() == seq!['\n', '\n'],
{
}

/// What is the command in an exec line: behind `exec ` all but the ASCII white space at the ends, with a
/// backslash in front where it starts with a reserved word; in any other line, all but the white space
/// at the ends. In a job file it is that of its exec line.
pub proof fn law_command_of(rest: Seq<char>, line: Seq<char>, content: Seq<u8>)
    requires
        line.len() < 5 || line.take(5) != seq!['e', 'x', 'e', 'c', ' '],
    ensures
        command_of(seq!['e', 'x', 'e', 'c', ' '] + rest) == unreserved(
            trimmed(rest, Space::Ascii),
        ),
        command_of(line) == trimmed(line, Space::Unicode),
        exec_line_of(content) matches Some(found) ==> command_in_file(content) == Some(
            command_of(found),
        ),
        exec_line_of(content) is None ==> command_in_file(content) is None,
{
    let prefix = seq!['e', 'x', 'e', 'c', ' '];
    let whole = prefix + rest;
    assert(whole.take(5) =~= prefix);
    assert(whole.skip(5) =~= rest);
}

/// A worker's state is seen as it is.
pub proof fn law_worker_view(name: String, command: String, id: JobId, wait: WaitRun, code: u8)
    ensures
        (Daemon::OpenFile { name })@ == (DaemonView::OpenFile { name: name@ }),
        (Daemon::LockFile { name })@ == (DaemonView::LockFile { name: name@ }),
        (Daemon::ListQueue { name })@ == (DaemonView::ListQueue { name: name@ }),
        (Daemon::WaitOlder { id, wait })@ == (DaemonView::WaitOlder { id, wait: wait@ }),
        (Daemon::ReadFile { id })@ == (DaemonView::ReadFile { id }),
        (Daemon::Separate { id, command })@ == (DaemonView::Separate { id, command: command@ }),
        (Daemon::MarkExecutable { id, command })@ == (DaemonView::MarkExecutable {
            id,
            command: command@,
        }),
        (Daemon::Redirect { id, command })@ == (DaemonView::Redirect { id, command: command@ }),
        (Daemon::Fork { id, command })@ == (DaemonView::Fork { id, command: command@ }),
        (Daemon::RunCommand { command })@ == (DaemonView::RunCommand { command: command@ }),
        Daemon::RunFailed@ == DaemonView::RunFailed,
        (Daemon::Reap { id })@ == (DaemonView::Reap { id }),
        (Daemon::Report { id, code })@ == (DaemonView::Report { id, code }),
        (Daemon::Move { id, code })@ == (DaemonView::Move { id, code }),
        (Daemon::Exit { code })@ == (DaemonView::Exit { code }),
{
}

/// What a worker does, and what becomes of it, are seen as they are.
pub proof fn law_worker_action_view(
    text: String,
    args: Vec<String>,
    wait: WaitAction,
    content: Vec<u8>,
    id: JobId,
    place: Place,
    code: u8,
    n: i32,
    yes: bool,
)
    ensures
        DaemonAction::OpenFile@ == DaemonActionView::OpenFile,
        DaemonAction::LockExclusive@ == DaemonActionView::LockExclusive,
        DaemonAction::ListQueue@ == DaemonActionView::ListQueue,
        DaemonAction::Wait(wait)@ == DaemonActionView::Wait(wait@),
        DaemonAction::ReadFile@ == DaemonActionView::ReadFile,
        DaemonAction::WriteSeparator(text)@ == DaemonActionView::WriteSeparator(text@),
        DaemonAction::MarkExecutable@ == DaemonActionView::MarkExecutable,
        DaemonAction::Redirect@ == DaemonActionView::Redirect,
        DaemonAction::Fork@ == DaemonActionView::Fork,
        DaemonAction::Exec(args)@ == DaemonActionView::Exec(string_texts(args@)),
        DaemonAction::ExitChild(code)@ == DaemonActionView::ExitChild(code),
        DaemonAction::Reap@ == DaemonActionView::Reap,
        DaemonAction::WriteTrailer(text)@ == DaemonActionView::WriteTrailer(text@),
        DaemonAction::Move(id, place)@ == DaemonActionView::Move(id, place),
        DaemonAction::Exit(code)@ == DaemonActionView::Exit(code),
        DaemonEvent::Done@ == DaemonEventView::Done,
        DaemonEvent::Answer(yes)@ == DaemonEventView::Answer(yes),
        DaemonEvent::Names(args)@ == DaemonEventView::Names(string_texts(args@)),
        DaemonEvent::Content(content)@ == DaemonEventView::Content(content@),
        DaemonEvent::Forked(n)@ == DaemonEventView::Forked(n),
        DaemonEvent::Ended(n)@ == DaemonEventView::Ended(n),
{
}

/// After an action and its outcome there is one state that a worker can be in, but for the wait status
/// 19, of which some systems make the code 255.
pub proof fn law_one_next_state(d: DaemonView, e: DaemonEventView, t: DaemonView)
    requires
        daemon_steps(d, e, t),
    ensures
        t == daemon_next(d, e) || (e == DaemonEventView::Ended(19) && (d matches DaemonView::Reap { id }
            && t == (DaemonView::Report { id, code: 255 }))),
{
}

/// A worker goes on only when its action had an outcome of the kind that it asks for, and never when it
/// has ended.
pub proof fn law_worker_heeds_outcomes(d: DaemonView, e: DaemonEventView)
    requires
        daemon_next(d, e) != d,
    ensures
        match daemon_action(d) {
            DaemonActionView::ListQueue => e is Names,
            DaemonActionView::Wait(_) => e is Answer,
            DaemonActionView::ReadFile => e is Content,
            DaemonActionView::Fork => e is Forked,
            DaemonActionView::Reap => e is Ended,
            DaemonActionView::Exit(_) => false,
            DaemonActionView::ExitChild(_) => false,
            DaemonActionView::Abort(_) => false,
            _ => e is Done,
        },
{
}

/// A worker keeps to its job and its command from one action to the next, and the exit code that it
/// reports is the one that it moves the job by and ends with.
pub proof fn law_worker_keeps_its_job(id: JobId, command: Seq<char>, code: u8, status: i32, pid: i32)
    ensures
        daemon_next(DaemonView::Separate { id, command }, DaemonEventView::Done) == (
        DaemonView::MarkExecutable { id, command }),
        daemon_next(DaemonView::MarkExecutable { id, command }, DaemonEventView::Done) == (
        DaemonView::Redirect { id, command }),
        daemon_next(DaemonView::Redirect { id, command }, DaemonEventView::Done) == (
        DaemonView::Fork { id, command }),
        pid == 0 ==> daemon_next(DaemonView::Fork { id, command }, DaemonEventView::Forked(pid)) == (
        DaemonView::RunCommand { command }),
        pid != 0 && pid != -1 ==> daemon_next(
            DaemonView::Fork { id, command },
            DaemonEventView::Forked(pid),
        ) == (DaemonView::Reap { id }),
        daemon_next(DaemonView::Reap { id }, DaemonEventView::Ended(status)) matches DaemonView::Report {
            id: own,
            code: c,
        } && own == id && (status as int % 128 == 0 ==> c == (status as int / 256) % 256) && (0
            < status as int % 128 < 127 ==> c == 128 + status as int % 128) && (status as int % 128
            == 127 ==> c == 255),
        daemon_next(DaemonView::Report { id, code }, DaemonEventView::Done) == (DaemonView::Move {
            id,
            code,
        }),
        daemon_next(DaemonView::Move { id, code }, DaemonEventView::Done) == (DaemonView::Exit {
            code,
        }),
{
}

} // verus!
