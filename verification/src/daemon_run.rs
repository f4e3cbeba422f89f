//! Whole runs of a worker, and what holds of them.
use crate::daemon::{
    command_in_file, command_of, daemon_action, daemon_next, daemon_steps, exec_prefix,
    law_shell_args, older_than, separator_text,
    shell_args, wait_or_go, DaemonActionView, DaemonError, DaemonEventView,
    DaemonView,
};
use crate::dir::{listing, Place};
use crate::exec::{exec_line, is_unsafe, needs_quotes, shell_text, shell_word};
use crate::job::{read_name, JobId};
use crate::line::law_output_is_behind_exec_line;
use crate::numeral::writes;
use crate::shell::{law_command_words, words};
use crate::status::{destination_of, is_code_of, law_trailer, trailer_text};
use crate::text::{is_space, trim_end, trim_start, Space};
use crate::wait::{
    law_wait, wait_advanced, wait_answer, wait_finished, wait_for_all, wait_left, wait_performed,
    wait_start, Fate, WaitActionView, WaitView,
};
use vstd::prelude::*;
use vstd::utf8::encode_utf8;

verus! {

/// What a worker finds.
pub struct World {
    /// The names in the queue directory.
    pub names: Seq<Seq<char>>,
    /// How the earlier jobs fare.
    pub fates: Seq<Fate>,
    /// What the job file holds when it is read.
    pub content: Seq<u8>,
    /// What making a process returns.
    pub pid: i32,
    /// How that process ends.
    pub status: i32,
    /// The exit code that the system makes of that.
    pub code: u8,
}

/// What becomes of the next action of a worker.
pub open spec fn outcome(d: DaemonView, world: World) -> DaemonEventView {
    match d {
        DaemonView::ListQueue { .. } => DaemonEventView::Names(world.names),
        DaemonView::WaitOlder { wait, .. } => DaemonEventView::Answer(
            wait_answer(wait, world.fates),
        ),
        DaemonView::ReadFile { .. } => DaemonEventView::Content(world.content),
        DaemonView::Fork { .. } => DaemonEventView::Forked(world.pid),
        DaemonView::Reap { .. } => DaemonEventView::Ended(world.status),
        _ => DaemonEventView::Done,
    }
}

/// The state of a worker after its next action. It is the one that follows, with the exit code that
/// the system makes of the wait status.
pub open spec fn next_in(d: DaemonView, world: World) -> DaemonView {
    match d {
        DaemonView::Reap { id } => DaemonView::Report { id, code: world.code },
        _ => daemon_next(d, outcome(d, world)),
    }
}

/// How many stages a worker has before it, but for waiting.
pub open spec fn stages_left(d: DaemonView) -> nat {
    match d {
        DaemonView::OpenFile { .. } => 12,
        DaemonView::LockFile { .. } => 11,
        DaemonView::ListQueue { .. } => 10,
        DaemonView::WaitOlder { .. } => 9,
        DaemonView::ReadFile { .. } => 8,
        DaemonView::Separate { .. } => 7,
        DaemonView::MarkExecutable { .. } => 6,
        DaemonView::Redirect { .. } => 5,
        DaemonView::Fork { .. } => 4,
        DaemonView::Reap { .. } => 3,
        DaemonView::Report { .. } => 2,
        DaemonView::Move { .. } => 1,
        _ => 0,
    }
}

/// How long a worker goes on waiting.
pub open spec fn waiting_left(d: DaemonView) -> nat {
    match d {
        DaemonView::WaitOlder { wait, .. } => wait_left(wait),
        _ => 0,
    }
}

/// Whether nothing follows the next action: it ends the process or makes it another.
pub open spec fn is_last(d: DaemonView) -> bool {
    stages_left(d) == 0
}

/// All that a worker does from the state `d` on.
pub open spec fn performed(d: DaemonView, world: World) -> Seq<DaemonActionView>
    decreases stages_left(d), waiting_left(d),
{
    if is_last(d) || (d matches DaemonView::WaitOlder { wait, .. } && wait_finished(wait)) {
        seq![daemon_action(d)]
    } else {
        seq![daemon_action(d)] + performed(next_in(d, world), world)
    }
}

/// Some actions of a wait as actions of a worker.
pub open spec fn as_daemon(actions: Seq<WaitActionView>) -> Seq<DaemonActionView> {
    Seq::new(actions.len(), |i: int| DaemonActionView::Wait(actions[i]))
}

/// What a worker does in its own turn, where `command` is the command in the job file: it reads that,
/// parts it from the output, and makes a second process. This becomes the command; the worker waits
/// for its end, writes how it ended, moves the job file, and ends in the same way.
pub open spec fn run_command(id: JobId, command: Seq<char>, world: World) -> Seq<
    DaemonActionView,
> {
    seq![
        DaemonActionView::ReadFile,
        DaemonActionView::WriteSeparator(separator_text()),
        DaemonActionView::MarkExecutable,
        DaemonActionView::Redirect,
        DaemonActionView::Fork,
    ] + if world.pid == -1 {
        seq![DaemonActionView::Abort(DaemonError::ForkFailed)]
    } else if world.pid == 0 {
        seq![DaemonActionView::Exec(shell_args(command))]
    } else {
        seq![
            DaemonActionView::Reap,
            DaemonActionView::WriteTrailer(trailer_text(world.code)),
            DaemonActionView::Move(id, destination_of(world.code)),
            DaemonActionView::Exit(world.code),
        ]
    }
}

/// What a worker does in its own turn. It gives up where the exec line is not UTF-8.
pub open spec fn own_turn(id: JobId, world: World) -> Seq<DaemonActionView> {
    match command_in_file(world.content) {
        Some(command) => run_command(id, command, world),
        None => seq![DaemonActionView::ReadFile, DaemonActionView::Abort(DaemonError::NotText)],
    }
}

/// What a worker does once it has asked for a second process.
proof fn lemma_last_turn(id: JobId, command: Seq<char>, world: World)
    ensures
        ({
            let fork = DaemonView::Fork { id, command };
            performed(next_in(fork, world), world) == run_command(id, command, world).skip(5)
        }),
{
    let fork = DaemonView::Fork { id, command };
    let d = next_in(fork, world);
    let end = run_command(id, command, world).skip(5);
    if world.pid == -1 || world.pid == 0 {
        assert(is_last(d));
        assert(performed(d, world) =~= end);
    } else {
        let code = world.code;
        let e1 = DaemonView::Report { id, code };
        let e2 = DaemonView::Move { id, code };
        let e3 = DaemonView::Exit { code };
        assert(d == DaemonView::Reap { id });
        assert(performed(e3, world) == seq![daemon_action(e3)]);
        assert(performed(e2, world) == seq![daemon_action(e2)] + performed(e3, world));
        assert(performed(e1, world) == seq![daemon_action(e1)] + performed(e2, world));
        assert(performed(d, world) == seq![daemon_action(d)] + performed(e1, world));
        assert(performed(d, world) =~= end);
    }
}

/// What a worker does from the point where it has the command.
proof fn lemma_with_command(id: JobId, command: Seq<char>, world: World)
    ensures
        performed(DaemonView::Separate { id, command }, world) == run_command(
            id,
            command,
            world,
        ).skip(1),
{
    let d1 = DaemonView::Separate { id, command };
    let d2 = DaemonView::MarkExecutable { id, command };
    let d3 = DaemonView::Redirect { id, command };
    let d4 = DaemonView::Fork { id, command };
    let all = run_command(id, command, world);
    lemma_last_turn(id, command, world);
    assert(performed(d4, world) == seq![daemon_action(d4)] + all.skip(5));
    assert(performed(d3, world) == seq![daemon_action(d3)] + performed(d4, world));
    assert(performed(d2, world) == seq![daemon_action(d2)] + performed(d3, world));
    assert(performed(d1, world) == seq![daemon_action(d1)] + performed(d2, world));
    assert(performed(d1, world) =~= all.skip(1));
}

proof fn lemma_own_turn(id: JobId, world: World)
    ensures
        performed(DaemonView::ReadFile { id }, world) == own_turn(id, world),
{
    let d0 = DaemonView::ReadFile { id };
    let d1 = match command_in_file(world.content) {
        Some(command) => DaemonView::Separate { id, command },
        None => DaemonView::Aborted { error: DaemonError::NotText },
    };
    assert(next_in(d0, world) == d1);
    assert(performed(d0, world) == seq![daemon_action(d0)] + performed(d1, world));
    if let Some(command) = command_in_file(world.content) {
        lemma_with_command(id, command, world);
    } else {
        assert(performed(d1, world) == seq![daemon_action(d1)]);
    }
    assert(performed(d0, world) =~= own_turn(id, world));
}

proof fn lemma_waiting(id: JobId, wait: WaitView, world: World)
    ensures
        performed(wait_or_go(id, wait), world) == as_daemon(wait_performed(wait, world.fates))
            + own_turn(id, world),
    decreases wait_left(wait),
{
    let d = wait_or_go(id, wait);
    let done = wait_performed(wait, world.fates);
    if wait_finished(wait) {
        lemma_own_turn(id, world);
        assert(as_daemon(done) + own_turn(id, world) =~= own_turn(id, world));
    } else {
        let next = wait_advanced(wait, wait_answer(wait, world.fates));
        lemma_waiting(id, next, world);
        assert(performed(d, world) == seq![daemon_action(d)] + performed(
            wait_or_go(id, next),
            world,
        ));
        let rest = wait_performed(next, world.fates);
        assert(as_daemon(done) =~= seq![daemon_action(d)] + as_daemon(rest));
        assert(performed(d, world) =~= as_daemon(done) + own_turn(id, world));
    }
}

/// Each state that a worker goes to is one that it can go to.
proof fn lemma_allowed(d: DaemonView, world: World)
    requires
        is_code_of(world.status as int, world.code as int),
    ensures
        daemon_steps(d, outcome(d, world), next_in(d, world)),
{
}

/// All that a worker ever does, whatever it finds; each state is one that it can go to. It locks its own job file; waits, one by one,
/// for the jobs that the queue then lists before its own; only then reads the command and has it
/// run by the shell; and when that has ended writes the exit code, moves the job file accordingly,
/// and ends with that code.
pub proof fn law_worker_run(name: Seq<char>, id: JobId, world: World)
    requires
        read_name(name) == Some(id),
        world.fates.len() == older_than(listing(world.names), id).len(),
        is_code_of(world.status as int, world.code as int),
    ensures
        forall|d: DaemonView| #[trigger] daemon_steps(d, outcome(d, world), next_in(d, world)),
        performed(DaemonView::OpenFile { name }, world) == seq![
            DaemonActionView::OpenFile,
            DaemonActionView::LockExclusive,
            DaemonActionView::ListQueue,
        ] + as_daemon(
            wait_for_all(older_than(listing(world.names), id), world.fates, false, 0),
        ) + own_turn(id, world),
{
    assert forall|d: DaemonView| #[trigger] daemon_steps(
        d,
        outcome(d, world),
        next_in(d, world),
    ) by {
        lemma_allowed(d, world);
    }
    lemma_worker_run(name, id, world);
}

proof fn lemma_worker_run(name: Seq<char>, id: JobId, world: World)
    requires
        read_name(name) == Some(id),
        world.fates.len() == older_than(listing(world.names), id).len(),
    ensures
        performed(DaemonView::OpenFile { name }, world) == seq![
            DaemonActionView::OpenFile,
            DaemonActionView::LockExclusive,
            DaemonActionView::ListQueue,
        ] + as_daemon(
            wait_for_all(older_than(listing(world.names), id), world.fates, false, 0),
        ) + own_turn(id, world),
{
    let older = older_than(listing(world.names), id);
    let d0 = DaemonView::OpenFile { name };
    let d1 = DaemonView::LockFile { name };
    let d2 = DaemonView::ListQueue { name };
    law_wait(older, world.fates, false);
    lemma_waiting(id, wait_start(older, false), world);
    assert(performed(d2, world) == seq![daemon_action(d2)] + performed(
        wait_or_go(id, wait_start(older, false)),
        world,
    ));
    assert(performed(d1, world) == seq![daemon_action(d1)] + performed(d2, world));
    assert(performed(d0, world) == seq![daemon_action(d0)] + performed(d1, world));
    assert(performed(d0, world) =~= seq![
        DaemonActionView::OpenFile,
        DaemonActionView::LockExclusive,
        DaemonActionView::ListQueue,
    ] + as_daemon(wait_for_all(older, world.fates, false, 0)) + own_turn(id, world));
}

/// A worker whose job file has a name that is no job's gives up, and runs nothing.
pub proof fn law_worker_without_job(name: Seq<char>, world: World)
    requires
        read_name(name) is None,
    ensures
        performed(DaemonView::OpenFile { name }, world) == seq![
            DaemonActionView::OpenFile,
            DaemonActionView::LockExclusive,
            DaemonActionView::ListQueue,
            DaemonActionView::Abort(DaemonError::BadName),
        ],
{
    let d0 = DaemonView::OpenFile { name };
    let d1 = DaemonView::LockFile { name };
    let d2 = DaemonView::ListQueue { name };
    let d3 = DaemonView::Aborted { error: DaemonError::BadName };
    assert(performed(d3, world) == seq![daemon_action(d3)]);
    assert(performed(d2, world) == seq![daemon_action(d2)] + performed(d3, world));
    assert(performed(d1, world) == seq![daemon_action(d1)] + performed(d2, world));
    assert(performed(d0, world) == seq![daemon_action(d0)] + performed(d1, world));
    assert(performed(d0, world) =~= seq![
        DaemonActionView::OpenFile,
        DaemonActionView::LockExclusive,
        DaemonActionView::ListQueue,
        DaemonActionView::Abort(DaemonError::BadName),
    ]);
}

/// The text of some arguments starts with a space; what is behind it starts and ends with no ASCII
/// white space, since that is quoted.
proof fn lemma_text_edges(args: Seq<Seq<char>>)
    requires
        args.len() > 0,
    ensures
        shell_text(args).len() >= 2,
        shell_text(args)[0] == ' ',
        !is_space(shell_text(args)[1], Space::Ascii),
        !is_space(shell_text(args).last(), Space::Ascii),
    decreases args.len(),
{
    let front = args.drop_last();
    let word = shell_word(args.last());
    assert(word.len() > 0 && !is_space(word[0], Space::Ascii) && !is_space(
        word.last(),
        Space::Ascii,
    )) by {
        let arg = args.last();
        if !needs_quotes(arg) {
            assert(!is_unsafe(arg[0]));
            assert(!is_unsafe(arg[arg.len() - 1]));
        }
    }
    if args.len() == 1 {
        assert(shell_text(front) =~= Seq::<char>::empty());
    } else {
        lemma_text_edges(front);
    }
}

/// What is queued is what runs: from the exec line of any arguments a worker takes a command that the
/// shell reads as those very arguments, whatever they hold.
pub proof fn law_queued_command_is_run(args: Seq<Seq<char>>)
    requires
        args.len() > 0,
    ensures
        words(command_of(exec_line(args))) == Some(args),
{
    let line = exec_line(args);
    let text = shell_text(args);
    let command = text.drop_first();
    lemma_text_edges(args);
    assert(line.take(5) =~= exec_prefix());
    let rest = line.skip(5);
    assert(rest =~= command.push('\n'));
    assert(rest[0] == text[1]);
    assert(trim_start(rest, Space::Ascii) == rest);
    assert(rest.last() == '\n');
    assert(rest.drop_last() =~= command);
    assert(command.last() == text.last());
    assert(trim_end(command, Space::Ascii) == command);
    assert(trim_end(rest, Space::Ascii) == command);
    law_command_words(args);
}

/// What is queued is what runs, from the job file on: whatever follows the exec line of any arguments
/// in it, a worker takes from it a command that the shell reads as those very arguments.
pub proof fn law_command_in_file_is_run(args: Seq<Seq<char>>, output: Seq<u8>)
    requires
        args.len() > 0,
    ensures
        command_in_file(encode_utf8(exec_line(args)) + output) matches Some(command) && words(
            command,
        ) == Some(args),
{
    law_output_is_behind_exec_line(args, output);
    law_queued_command_is_run(args);
}

/// What some actions of a worker make of a job file that holds `content`, where the command prints
/// `output` while its end is waited for. All is written at the end of the file.
pub open spec fn file_after(
    content: Seq<u8>,
    actions: Seq<DaemonActionView>,
    output: Seq<u8>,
) -> Seq<u8>
    decreases actions.len(),
{
    if actions.len() == 0 {
        content
    } else {
        let earlier = file_after(content, actions.drop_last(), output);
        match actions.last() {
            DaemonActionView::WriteSeparator(text) => earlier + encode_utf8(text),
            DaemonActionView::Reap => earlier + output,
            DaemonActionView::WriteTrailer(text) => earlier + encode_utf8(text),
            _ => earlier,
        }
    }
}

proof fn lemma_file_after_concat(
    content: Seq<u8>,
    a: Seq<DaemonActionView>,
    b: Seq<DaemonActionView>,
    output: Seq<u8>,
)
    ensures
        file_after(content, a + b, output) == file_after(
            file_after(content, a, output),
            b,
            output,
        ),
    decreases b.len(),
{
    if b.len() == 0 {
        assert(a + b =~= a);
    } else {
        assert((a + b).drop_last() =~= a + b.drop_last());
        assert((a + b).last() == b.last());
        lemma_file_after_concat(content, a, b.drop_last(), output);
    }
}

/// Actions that write nothing leave the file as it is.
proof fn lemma_file_unchanged(content: Seq<u8>, actions: Seq<DaemonActionView>, output: Seq<u8>)
    requires
        forall|i: int|
            0 <= i < actions.len() ==> !(#[trigger] actions[i] is WriteSeparator)
                && !(actions[i] is Reap) && !(actions[i] is WriteTrailer),
    ensures
        file_after(content, actions, output) == content,
    decreases actions.len(),
{
    if actions.len() > 0 {
        let front = actions.drop_last();
        assert(actions[actions.len() - 1] == actions.last());
        assert forall|i: int| 0 <= i < front.len() implies !(#[trigger] front[i] is WriteSeparator)
            && !(front[i] is Reap) && !(front[i] is WriteTrailer) by {
            assert(front[i] == actions[i]);
        }
        lemma_file_unchanged(content, front, output);
    }
}

/// A job file, when its worker has ended, holds the exec line of the arguments that were queued, the
/// lines that part it from the output, what the command printed, and the line with the exit code.
#[verifier::rlimit(30)]
pub proof fn law_job_file(
    name: Seq<char>,
    id: JobId,
    world: World,
    args: Seq<Seq<char>>,
    output: Seq<u8>,
)
    requires
        read_name(name) == Some(id),
        world.fates.len() == older_than(listing(world.names), id).len(),
        is_code_of(world.status as int, world.code as int),
        world.content == encode_utf8(exec_line(args)),
        world.pid != -1 && world.pid != 0,
    ensures
        file_after(world.content, performed(DaemonView::OpenFile { name }, world), output)
            == encode_utf8(exec_line(args)) + encode_utf8(separator_text()) + output + encode_utf8(
            trailer_text(world.code),
        ),
{
    let none = Seq::<u8>::empty();
    assert(world.content + none =~= world.content);
    law_output_is_behind_exec_line(args, none);
    lemma_worker_run(name, id, world);
    let command = command_of(exec_line(args));
    let first = seq![
        DaemonActionView::OpenFile,
        DaemonActionView::LockExclusive,
        DaemonActionView::ListQueue,
    ] + as_daemon(wait_for_all(older_than(listing(world.names), id), world.fates, false, 0));
    let turn = run_command(id, command, world);
    assert(own_turn(id, world) == turn);
    lemma_file_after_concat(world.content, first, turn, output);
    lemma_file_unchanged(world.content, first, output);
    let read = seq![DaemonActionView::ReadFile];
    let separate = seq![DaemonActionView::WriteSeparator(separator_text())];
    let start = seq![
        DaemonActionView::MarkExecutable,
        DaemonActionView::Redirect,
        DaemonActionView::Fork,
    ];
    let reap = seq![DaemonActionView::Reap];
    let report = seq![DaemonActionView::WriteTrailer(trailer_text(world.code))];
    let end = seq![
        DaemonActionView::Move(id, destination_of(world.code)),
        DaemonActionView::Exit(world.code),
    ];
    assert(turn =~= read + separate + start + reap + report + end);
    let c0 = world.content;
    let c1 = c0 + encode_utf8(separator_text());
    let c2 = c1 + output;
    let c3 = c2 + encode_utf8(trailer_text(world.code));
    lemma_file_unchanged(c0, read, output);
    lemma_file_after_concat(c0, read, separate, output);
    lemma_one_write(c0, separate, output);
    lemma_file_after_concat(c0, read + separate, start, output);
    lemma_file_unchanged(c1, start, output);
    lemma_file_after_concat(c0, read + separate + start, reap, output);
    lemma_one_write(c1, reap, output);
    lemma_file_after_concat(c0, read + separate + start + reap, report, output);
    lemma_one_write(c2, report, output);
    lemma_file_after_concat(c0, read + separate + start + reap + report, end, output);
    lemma_file_unchanged(c3, end, output);
}

/// What one action makes of a job file.
proof fn lemma_one_write(content: Seq<u8>, actions: Seq<DaemonActionView>, output: Seq<u8>)
    requires
        actions.len() == 1,
    ensures
        file_after(content, actions, output) == match actions[0] {
            DaemonActionView::WriteSeparator(text) => content + encode_utf8(text),
            DaemonActionView::Reap => content + output,
            DaemonActionView::WriteTrailer(text) => content + encode_utf8(text),
            _ => content,
        },
{
    assert(actions.drop_last() =~= Seq::<DaemonActionView>::empty());
    assert(file_after(content, actions.drop_last(), output) == content);
}

/// What is queued is what the shell is given: of a job whose file starts with the exec line of any
/// arguments, the run in the new process ends with its becoming `sh`, with the arguments `-c` and a text
/// that the shell reads as those very arguments.
#[verifier::rlimit(30)]
pub proof fn law_shell_runs_what_was_queued(
    name: Seq<char>,
    id: JobId,
    world: World,
    args: Seq<Seq<char>>,
    output: Seq<u8>,
)
    requires
        read_name(name) == Some(id),
        world.fates.len() == older_than(listing(world.names), id).len(),
        world.content == encode_utf8(exec_line(args)) + output,
        args.len() > 0,
        world.pid == 0,
    ensures
        performed(DaemonView::OpenFile { name }, world).last() matches DaemonActionView::Exec(given)
            && given.len() == 3 && given[0] == seq!['s', 'h'] && given[1] == seq!['-', 'c'] && words(
            given[2],
        ) == Some(args),
{
    lemma_worker_run(name, id, world);
    law_command_in_file_is_run(args, output);
    let command = command_in_file(world.content)->0;
    law_shell_args(command);
    assert(own_turn(id, world).last() == DaemonActionView::Exec(shell_args(command)));
    assert(performed(DaemonView::OpenFile { name }, world).last() == own_turn(id, world).last());
}

/// A worker that has a command to run, in the process that goes on as the worker: it locks its file and
/// reads the queue; waits for the earlier jobs; reads its file, writes two newlines, marks the file, lets
/// the output go to it, and makes the process for the command; waits for its end, writes the exit code,
/// moves the file to where that code belongs, and ends with it. It does nothing else.
#[verifier::rlimit(30)]
pub proof fn law_worker_acts(name: Seq<char>, id: JobId, world: World)
    requires
        read_name(name) == Some(id),
        world.fates.len() == older_than(listing(world.names), id).len(),
        command_in_file(world.content) is Some,
        world.pid != -1 && world.pid != 0,
    ensures
        performed(DaemonView::OpenFile { name }, world) == seq![
            DaemonActionView::OpenFile,
            DaemonActionView::LockExclusive,
            DaemonActionView::ListQueue,
        ] + as_daemon(
            wait_performed(wait_start(older_than(listing(world.names), id), false), world.fates),
        ) + seq![
            DaemonActionView::ReadFile,
            DaemonActionView::WriteSeparator(seq!['\n', '\n']),
            DaemonActionView::MarkExecutable,
            DaemonActionView::Redirect,
            DaemonActionView::Fork,
            DaemonActionView::Reap,
            DaemonActionView::WriteTrailer(trailer_text(world.code)),
            DaemonActionView::Move(
                id,
                if world.code == 0 {
                    Place::Done
                } else {
                    Place::Fail
                },
            ),
            DaemonActionView::Exit(world.code),
        ],
{
    lemma_worker_run(name, id, world);
    law_wait(older_than(listing(world.names), id), world.fates, false);
    let command = command_in_file(world.content)->0;
    assert(run_command(id, command, world) =~= seq![
        DaemonActionView::ReadFile,
        DaemonActionView::WriteSeparator(seq!['\n', '\n']),
        DaemonActionView::MarkExecutable,
        DaemonActionView::Redirect,
        DaemonActionView::Fork,
        DaemonActionView::Reap,
        DaemonActionView::WriteTrailer(trailer_text(world.code)),
        DaemonActionView::Move(
            id,
            if world.code == 0 {
                Place::Done
            } else {
                Place::Fail
            },
        ),
        DaemonActionView::Exit(world.code),
    ]);
}

/// A worker that cannot run its command gives up: where the exec line is not UTF-8 before it changes
/// anything, and where no process can be made as soon as that is known. A new process that cannot become
/// the command ends with the code 127.
#[verifier::rlimit(30)]
pub proof fn law_worker_gives_up(name: Seq<char>, id: JobId, world: World, command: Seq<char>)
    requires
        read_name(name) == Some(id),
        world.fates.len() == older_than(listing(world.names), id).len(),
    ensures
        command_in_file(world.content) is None ==> performed(DaemonView::OpenFile { name }, world)
            == seq![
            DaemonActionView::OpenFile,
            DaemonActionView::LockExclusive,
            DaemonActionView::ListQueue,
        ] + as_daemon(
            wait_performed(wait_start(older_than(listing(world.names), id), false), world.fates),
        ) + seq![DaemonActionView::ReadFile, DaemonActionView::Abort(DaemonError::NotText)],
        command_in_file(world.content) is Some && world.pid == -1 ==> performed(
            DaemonView::OpenFile { name },
            world,
        ).last() == DaemonActionView::Abort(DaemonError::ForkFailed),
        daemon_action(daemon_next(DaemonView::RunCommand { command }, DaemonEventView::Done))
            == DaemonActionView::ExitChild(127),
{
    lemma_worker_run(name, id, world);
    law_wait(older_than(listing(world.names), id), world.fates, false);
    if command_in_file(world.content) is Some && world.pid == -1 {
        let turn = own_turn(id, world);
        assert(turn.last() == DaemonActionView::Abort(DaemonError::ForkFailed));
        assert(performed(DaemonView::OpenFile { name }, world).last() == turn.last());
    }
}

/// The actions of a wait are as many when a worker does them, and each is the same.
pub proof fn law_as_daemon(actions: Seq<WaitActionView>)
    ensures
        as_daemon(actions).len() == actions.len(),
        forall|i: int|
            0 <= i < actions.len() ==> #[trigger] as_daemon(actions)[i] == DaemonActionView::Wait(
                actions[i],
            ),
{
}

/// A job file, when its worker has ended, byte by byte: the exec line, two newlines, what the command
/// printed, two newlines, `+ exit=` with the exit code in decimal, and a newline.
#[verifier::rlimit(30)]
pub proof fn law_job_file_text(
    name: Seq<char>,
    id: JobId,
    world: World,
    args: Seq<Seq<char>>,
    output: Seq<u8>,
)
    requires
        read_name(name) == Some(id),
        world.fates.len() == older_than(listing(world.names), id).len(),
        is_code_of(world.status as int, world.code as int),
        world.content == encode_utf8(exec_line(args)),
        world.pid != -1 && world.pid != 0,
    ensures
        exists|digits: Seq<char>| #[trigger]
            writes(digits, world.code as nat, 10, 0) && file_after(
                world.content,
                performed(DaemonView::OpenFile { name }, world),
                output,
            ) == encode_utf8(exec_line(args)) + encode_utf8(seq!['\n', '\n']) + output + encode_utf8(
                seq!['\n', '\n', '+', ' ', 'e', 'x', 'i', 't', '='] + digits + seq!['\n'],
            ),
{
    law_job_file(name, id, world, args, output);
    law_trailer(world.code);
    law_shell_args(seq![]);
    let digits = choose|digits: Seq<char>| #[trigger]
        writes(digits, world.code as nat, 10, 0) && trailer_text(world.code) == seq![
            '\n',
            '\n',
            '+',
            ' ',
            'e',
            'x',
            'i',
            't',
            '=',
        ] + digits + seq!['\n'];
    assert(writes(digits, world.code as nat, 10, 0));
}

} // verus!
