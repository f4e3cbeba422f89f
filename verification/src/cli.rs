//! What the command lines of `nq` and `nqtail` ask for.
use crate::dir::string_texts;
use crate::exec::{exec_line, texts, write_exec_line};
use crate::job::{job_name, law_name_round_trip, read_name, JobId, TIMESTAMP_WIDTH};
use crate::numeral::{
    digit_value, law_numeral_is_positional, lemma_numeral, lemma_zero_padded, numeral, push_numeral,
    writes, zero_padded,
};
use crate::text::concat;
use vstd::prelude::*;
use vstd::string::*;
use vstd::utf8::encode_utf8;

verus! {

/// What is wrong with a command line.
#[derive(Debug)]
pub enum CliError {
    /// An argument is not the ID of a job.
    InvalidJobId(String),
    /// Both `-w` and `-t` are given.
    WaitAndTest,
}

impl CliError {
    /// What is shown of the error.
    pub fn message(&self) -> (r: String)
        ensures
            match self {
                CliError::InvalidJobId(arg) => r@ == "invalid job id: "@ + arg@,
                CliError::WaitAndTest => r@ == "cannot use both -w and -t together"@,
            },
    {
        match self {
            CliError::InvalidJobId(arg) => concat("invalid job id: ", arg.as_str()),
            CliError::WaitAndTest => "cannot use both -w and -t together".to_string(),
        }
    }
}

/// The job that an argument names: by the name of its file, or by that name without the comma.
pub open spec fn read_arg(arg: Seq<char>) -> Option<JobId> {
    match read_name(arg) {
        Some(id) => Some(id),
        None => read_name(seq![','] + arg),
    }
}

/// The job that the argument `arg` names.
fn parse_arg(arg: &str) -> (r: Option<JobId>)
    ensures
        r == read_arg(arg@),
{
    match JobId::from_filename(arg) {
        Some(id) => Some(id),
        None => {
            let mut name = String::new();
            name.push(',');
            name.append(arg);
            assert(name@ =~= seq![','] + arg@);
            JobId::from_filename(name.as_str())
        },
    }
}

/// The first of `args` that names no job, by its index; their number where all do.
pub open spec fn first_unreadable(args: Seq<Seq<char>>) -> int
    decreases args.len(),
{
    if args.len() == 0 {
        0
    } else if read_arg(args[0]) is None {
        0
    } else {
        1 + first_unreadable(args.drop_first())
    }
}

proof fn lemma_first_unreadable(args: Seq<Seq<char>>, k: int)
    requires
        0 <= k <= args.len(),
        forall|i: int| 0 <= i < k ==> read_arg(#[trigger] args[i]) is Some,
        k < args.len() ==> read_arg(args[k]) is None,
    ensures
        first_unreadable(args) == k,
    decreases args.len(),
{
    if k > 0 {
        let rest = args.drop_first();
        assert(read_arg(args[0]) is Some);
        assert forall|i: int| 0 <= i < k - 1 implies read_arg(#[trigger] rest[i]) is Some by {
            assert(rest[i] == args[i + 1]);
        }
        lemma_first_unreadable(rest, k - 1);
    }
}

/// The jobs that the arguments `args` name, in their order.
pub open spec fn read_args(args: Seq<Seq<char>>) -> Seq<JobId> {
    Seq::new(args.len(), |i: int| read_arg(args[i])->0)
}

/// What [`parse_job_ids`] returns for `args`.
pub open spec fn parsed_job_ids(
    args: Seq<Seq<char>>,
    r: Result<Vec<JobId>, CliError>,
) -> bool {
    let k = first_unreadable(args);
    if k < args.len() {
        r matches Err(CliError::InvalidJobId(arg)) && arg@ == args[k]
    } else {
        r matches Ok(ids) && ids@ == read_args(args)
    }
}

/// The jobs that `args` name, in their order. The first argument that names none is refused.
pub fn parse_job_ids(args: &[String]) -> (r: Result<Vec<JobId>, CliError>)
    ensures
        parsed_job_ids(string_texts(args@), r),
        match r {
            Ok(ids) => ids@.len() == args@.len() && forall|i: int|
                0 <= i < args@.len() ==> read_arg((#[trigger] args@[i])@) == Some(ids@[i]),
            Err(CliError::InvalidJobId(text)) => exists|k: int|
                #![trigger args@[k]]
                {
                    &&& 0 <= k < args@.len()
                    &&& text@ == args@[k]@
                    &&& read_arg(args@[k]@) is None
                    &&& forall|i: int| 0 <= i < k ==> read_arg((#[trigger] args@[i])@) is Some
                },
            Err(CliError::WaitAndTest) => false,
        },
{
    let ghost all = string_texts(args@);
    let mut ids: Vec<JobId> = Vec::new();
    let mut i: usize = 0;
    while i < args.len()
        invariant
            i <= args@.len(),
            all == string_texts(args@),
            forall|j: int| 0 <= j < i ==> read_arg(#[trigger] all[j]) is Some,
            ids@.len() == i,
            forall|j: int| 0 <= j < i ==> Some(#[trigger] ids@[j]) == read_arg(all[j]),
        decreases args@.len() - i,
    {
        match parse_arg(args[i].as_str()) {
            Some(id) => {
                ids.push(id);
            },
            None => {
                proof {
                    lemma_first_unreadable(all, i as int);
                    assert forall|j: int| 0 <= j < i implies read_arg((#[trigger] args@[j])@) is Some by {
                        assert(all[j] == args@[j]@);
                    }
                }
                return Err(CliError::InvalidJobId(args[i].clone()));
            },
        }
        i = i + 1;
    }
    proof {
        lemma_first_unreadable(all, i as int);
        assert(ids@ =~= read_args(all));
        assert forall|j: int| 0 <= j < args@.len() implies read_arg((#[trigger] args@[j])@) == Some(
            ids@[j],
        ) by {
            assert(all[j] == args@[j]@);
        }
    }
    Ok(ids)
}

/// The jobs that a command is about.
#[derive(Debug)]
pub enum Targets {
    /// Those that were named.
    Given(Vec<JobId>),
    /// All that are in the queue.
    WholeQueue,
}

/// What [`resolve_job_ids`] returns for `args`.
pub open spec fn resolved(args: Seq<Seq<char>>, r: Result<Targets, CliError>) -> bool {
    if args.len() == 0 {
        r matches Ok(Targets::WholeQueue)
    } else {
        match r {
            Ok(Targets::Given(ids)) => parsed_job_ids(args, Ok(ids)),
            Ok(Targets::WholeQueue) => false,
            Err(e) => parsed_job_ids(args, Err(e)),
        }
    }
}

/// The jobs that a command with the arguments `args` is about: those that are named, or the whole
/// queue where none is.
pub fn resolve_job_ids(args: &[String]) -> (r: Result<Targets, CliError>)
    ensures
        resolved(string_texts(args@), r),
        match r {
            Ok(Targets::WholeQueue) => args@.len() == 0,
            Ok(Targets::Given(ids)) => args@.len() > 0 && ids@.len() == args@.len() && forall|i: int|
                0 <= i < args@.len() ==> read_arg((#[trigger] args@[i])@) == Some(ids@[i]),
            Err(CliError::InvalidJobId(text)) => exists|k: int|
                #![trigger args@[k]]
                {
                    &&& 0 <= k < args@.len()
                    &&& text@ == args@[k]@
                    &&& read_arg(args@[k]@) is None
                    &&& forall|i: int| 0 <= i < k ==> read_arg((#[trigger] args@[i])@) is Some
                },
            Err(CliError::WaitAndTest) => false,
        },
{
    if args.len() == 0 {
        return Ok(Targets::WholeQueue);
    }
    match parse_job_ids(args) {
        Ok(ids) => Ok(Targets::Given(ids)),
        Err(e) => Err(e),
    }
}

/// The jobs that `nqtail` is about, with the arguments `args`: the whole queue where `all` is set, which
/// is the option `-a`; else those that are named, or the whole queue where none is.
pub fn tail_targets(all: bool, args: &[String]) -> (r: Result<Targets, CliError>)
    ensures
        all ==> r matches Ok(Targets::WholeQueue),
        !all ==> resolved(string_texts(args@), r),
{
    if all {
        Ok(Targets::WholeQueue)
    } else {
        resolve_job_ids(args)
    }
}

/// What `nq` is asked to do.
#[derive(Debug)]
pub enum Command {
    /// Wait until the jobs are done.
    Wait(Targets),
    /// Tell whether the jobs are done.
    Test(Targets),
    /// List the queue.
    List,
    /// Queue the arguments as a command.
    Queue,
}

/// What `nq` is asked to do by the options `-w` and `-t` and the other arguments.
pub fn select_command(wait: bool, test: bool, args: &[String]) -> (r: Result<Command, CliError>)
    ensures
        wait && test ==> r matches Err(CliError::WaitAndTest),
        wait && !test ==> match r {
            Ok(Command::Wait(targets)) => resolved(string_texts(args@), Ok(targets)),
            Ok(_) => false,
            Err(e) => resolved(string_texts(args@), Err(e)),
        },
        !wait && test ==> match r {
            Ok(Command::Test(targets)) => resolved(string_texts(args@), Ok(targets)),
            Ok(_) => false,
            Err(e) => resolved(string_texts(args@), Err(e)),
        },
        !wait && !test && args@.len() == 0 ==> r matches Ok(Command::List),
        !wait && !test && args@.len() > 0 ==> r matches Ok(Command::Queue),
{
    if wait && test {
        Err(CliError::WaitAndTest)
    } else if wait {
        match resolve_job_ids(args) {
            Ok(targets) => Ok(Command::Wait(targets)),
            Err(e) => Err(e),
        }
    } else if test {
        match resolve_job_ids(args) {
            Ok(targets) => Ok(Command::Test(targets)),
            Err(e) => Err(e),
        }
    } else if args.len() == 0 {
        Ok(Command::List)
    } else {
        Ok(Command::Queue)
    }
}

/// The lines that name the jobs `jobs`, one to a line.
pub open spec fn name_lines(jobs: Seq<JobId>) -> Seq<Seq<char>> {
    Seq::new(jobs.len(), |i: int| job_name(',', jobs[i]))
}

/// The lines that name the jobs `jobs`, one to a line.
fn job_lines(jobs: &Vec<JobId>) -> (r: Vec<String>)
    ensures
        string_texts(r@) == name_lines(jobs@),
        r@.len() == jobs@.len(),
        forall|i: int| 0 <= i < jobs@.len() ==> (#[trigger] r@[i])@ == job_name(',', jobs@[i]),
{
    let mut lines: Vec<String> = Vec::new();
    let mut i: usize = 0;
    while i < jobs.len()
        invariant
            i <= jobs@.len(),
            lines@.len() == i,
            forall|j: int| 0 <= j < i ==> (#[trigger] lines@[j])@ == job_name(',', jobs@[j]),
        decreases jobs@.len() - i,
    {
        lines.push(jobs[i].to_string());
        i = i + 1;
    }
    assert(string_texts(lines@) =~= name_lines(jobs@));
    lines
}

/// The lines that `nq` prints of the queue `jobs`: their number alone where `compact` is set, else
/// one line for each job.
pub fn cmd_list(jobs: &Vec<JobId>, compact: bool) -> (r: Vec<String>)
    ensures
        compact ==> string_texts(r@) == seq![numeral(jobs@.len(), 10)],
        !compact ==> string_texts(r@) == name_lines(jobs@),
        compact ==> r@.len() == 1 && writes(r@[0]@, jobs@.len(), 10, 0),
        !compact ==> r@.len() == jobs@.len() && forall|i: int|
            0 <= i < jobs@.len() ==> (#[trigger] r@[i])@ == job_name(',', jobs@[i]),
{
    if compact {
        let mut count = String::new();
        push_numeral(&mut count, jobs.len() as u64, 10);
        let mut lines: Vec<String> = Vec::new();
        lines.push(count);
        assert(count@ =~= numeral(jobs@.len(), 10));
        proof {
            law_numeral_is_positional(jobs@.len(), 10);
        }
        assert(string_texts(lines@) =~= seq![numeral(jobs@.len(), 10)]);
        lines
    } else {
        job_lines(jobs)
    }
}

/// What queueing a command writes.
#[derive(Debug)]
pub struct QueuedJob {
    /// What the job file holds at first.
    pub exec_line: Vec<u8>,
    /// What the user is told, if anything.
    pub announcement: Option<String>,
}

/// What queueing the command `cmd` as the job `id` writes: the exec line into the job file, and,
/// unless `quiet` is set, the job's ID for the user.
pub fn cmd_queue(id: &JobId, cmd: &[String], quiet: bool) -> (r: QueuedJob)
    ensures
        r.exec_line@ == encode_utf8(exec_line(string_texts(cmd@))),
        quiet ==> r.announcement is None,
        !quiet ==> (r.announcement matches Some(text) && text@ == job_name(',', *id)),
{
    let mut args: Vec<&str> = Vec::new();
    let mut i: usize = 0;
    while i < cmd.len()
        invariant
            i <= cmd@.len(),
            args@.len() == i,
            forall|j: int| 0 <= j < i ==> (#[trigger] args@[j])@ == cmd@[j]@,
        decreases cmd@.len() - i,
    {
        args.push(cmd[i].as_str());
        i = i + 1;
    }
    assert(texts(args@) =~= string_texts(cmd@));
    let mut line: Vec<u8> = Vec::new();
    let written = write_exec_line(&mut line, args.as_slice());
    assert(written is Ok);
    assert(line@ =~= encode_utf8(exec_line(string_texts(cmd@))));
    let announcement = if quiet {
        None
    } else {
        Some(id.to_string())
    };
    QueuedJob { exec_line: line, announcement }
}

/// The exit status of `nq -t`: 0 where all jobs are done, else 1.
pub fn test_status(all_done: bool) -> (r: u8)
    ensures
        r == if all_done {
            0u8
        } else {
            1u8
        },
{
    if all_done {
        0
    } else {
        1
    }
}

/// What `nqtail` does with the jobs it is about.
#[derive(Debug)]
pub enum TailCommand {
    /// Print these lines.
    Print(Vec<String>),
    /// Follow the output of these jobs, one after the other.
    Follow(Vec<JobId>),
}

/// What `nqtail` does with the jobs `ids`: print their IDs where `quiet` is set, else follow them.
pub fn tail_command(ids: Vec<JobId>, quiet: bool) -> (r: TailCommand)
    ensures
        quiet ==> (r matches TailCommand::Print(lines) && string_texts(lines@) == name_lines(ids@)),
        !quiet ==> (r matches TailCommand::Follow(jobs) && jobs == ids),
        quiet ==> (r matches TailCommand::Print(lines) && lines@.len() == ids@.len() && forall|i: int|
            0 <= i < ids@.len() ==> (#[trigger] lines@[i])@ == job_name(',', ids@[i])),
{
    if quiet {
        TailCommand::Print(job_lines(&ids))
    } else {
        TailCommand::Follow(ids)
    }
}

/// The permissions `mode` with leave to execute for everyone.
pub fn set_executable(mode: u32) -> (r: u32)
    ensures
        r == mode | 0o111,
{
    mode | 0o111
}

/// The permissions `mode` with leave to execute for no one.
pub fn clear_executable(mode: u32) -> (r: u32)
    ensures
        r == mode & !0o111,
{
    mode & !0o111
}

/// Setting leave to execute and clearing it touch nothing but the three bits for that; the last
/// of them to be done decides, and to do either twice is to do it once.
pub proof fn law_executable_bits(mode: u32)
    ensures
        (mode | 0o111) & !0o111 == mode & !0o111,
        (mode & !0o111) | 0o111 == mode | 0o111,
        (mode | 0o111) & 0o111 == 0o111,
        (mode & !0o111) & 0o111 == 0,
        (mode | 0o111) | 0o111 == mode | 0o111,
        (mode & !0o111) & !0o111 == mode & !0o111,
{
    assert((mode | 0o111) & !0o111 == mode & !0o111) by (bit_vector);
    assert((mode & !0o111) | 0o111 == mode | 0o111) by (bit_vector);
    assert((mode | 0o111) & 0o111 == 0o111) by (bit_vector);
    assert((mode & !0o111) & 0o111 == 0) by (bit_vector);
    assert((mode | 0o111) | 0o111 == mode | 0o111) by (bit_vector);
    assert((mode & !0o111) & !0o111 == mode & !0o111) by (bit_vector);
}

/// A job can be named on a command line by what `nq` prints of it, and by that without the comma.
pub proof fn law_printed_ids_are_read(id: JobId)
    ensures
        read_arg(job_name(',', id)) == Some(id),
        read_arg(job_name(',', id).drop_first()) == Some(id),
{
    law_name_round_trip(id);
    let name = job_name(',', id);
    let bare = name.drop_first();
    assert(seq![','] + bare =~= name);
    assert(read_name(bare) is None || read_name(bare) == Some(id)) by {
        let time = numeral(id.timestamp_ms as nat, 16);
        let hex = zero_padded(time, TIMESTAMP_WIDTH as nat);
        lemma_numeral(id.timestamp_ms as nat, 16);
        lemma_zero_padded(time, TIMESTAMP_WIDTH as nat, 16);
        assert(bare[0] == hex[0]);
        assert(digit_value(hex[0], 16) is Some);
    }
}

/// An argument names the job that it is the file name of; where it is none, the job that it is with a
/// comma in front.
pub proof fn law_argument_is_read(arg: Seq<char>)
    ensures
        read_name(arg) is Some ==> read_arg(arg) == read_name(arg),
        read_name(arg) is None ==> read_arg(arg) == read_name(seq![','] + arg),
{
}

/// Arguments are read one by one: where all of them name jobs, the result is these jobs, each in the
/// place of its own argument; where one does not, it is the first such that is refused.
pub proof fn law_arguments_are_read(args: Seq<Seq<char>>, r: Result<Vec<JobId>, CliError>)
    requires
        parsed_job_ids(args, r),
    ensures
        match r {
            Ok(ids) => ids@.len() == args.len() && forall|i: int|
                0 <= i < args.len() ==> read_arg(#[trigger] args[i]) == Some(ids@[i]),
            Err(CliError::InvalidJobId(text)) => exists|k: int|
                #![trigger args[k]]
                {
                    &&& 0 <= k < args.len()
                    &&& text@ == args[k]
                    &&& read_arg(args[k]) is None
                    &&& forall|i: int| 0 <= i < k ==> read_arg(#[trigger] args[i]) is Some
                },
            Err(CliError::WaitAndTest) => false,
        },
{
    lemma_unreadable(args);
    let k = first_unreadable(args);
    if k < args.len() {
        assert(read_arg(args[k]) is None);
    }
}

proof fn lemma_unreadable(args: Seq<Seq<char>>)
    ensures
        ({
            let k = first_unreadable(args);
            &&& 0 <= k <= args.len()
            &&& forall|i: int| 0 <= i < k ==> read_arg(#[trigger] args[i]) is Some
            &&& k < args.len() ==> read_arg(args[k]) is None
        }),
    decreases args.len(),
{
    if args.len() > 0 && read_arg(args[0]) is Some {
        let rest = args.drop_first();
        lemma_unreadable(rest);
        let k = first_unreadable(args);
        assert forall|i: int| 0 <= i < k implies read_arg(#[trigger] args[i]) is Some by {
            if i > 0 {
                assert(args[i] == rest[i - 1]);
            }
        }
        if k < args.len() {
            assert(args[k] == rest[k - 1]);
        }
    }
}

/// Jobs that are named on a command line, by what `nq` prints of them or by that without the comma, are
/// the jobs that the command is about, all of them and in that order.
pub proof fn law_named_jobs_are_meant(
    ids: Seq<JobId>,
    args: Seq<Seq<char>>,
    r: Result<Vec<JobId>, CliError>,
    t: Result<Targets, CliError>,
)
    requires
        args.len() == ids.len(),
        forall|i: int|
            0 <= i < ids.len() ==> #[trigger] args[i] == job_name(',', ids[i]) || args[i]
                == job_name(',', ids[i]).drop_first(),
        parsed_job_ids(args, r),
        resolved(args, t),
    ensures
        r matches Ok(v) && v@ == ids,
        ids.len() > 0 ==> (t matches Ok(Targets::Given(v)) && v@ == ids),
        ids.len() == 0 ==> t matches Ok(Targets::WholeQueue),
{
    assert forall|i: int| 0 <= i < args.len() implies read_arg(#[trigger] args[i]) == Some(
        ids[i],
    ) by {
        law_printed_ids_are_read(ids[i]);
    }
    law_arguments_are_read(args, r);
    let v = r->Ok_0;
    assert forall|i: int| 0 <= i < ids.len() implies v@[i] == ids[i] by {
        assert(read_arg(args[i]) == Some(v@[i]));
    }
    assert(v@ =~= ids);
    if ids.len() > 0 {
        match t {
            Ok(Targets::Given(w)) => {
                law_arguments_are_read(args, Ok(w));
                assert forall|i: int| 0 <= i < ids.len() implies w@[i] == ids[i] by {
                    assert(read_arg(args[i]) == Some(w@[i]));
                }
                assert(w@ =~= ids);
            },
            Ok(Targets::WholeQueue) => {},
            Err(e) => {
                law_arguments_are_read(args, Err(e));
            },
        }
    }
}

/// The lines that name some jobs are as many as the jobs, and each is the name of its own job, which is
/// read back from it.
pub proof fn law_lines_name_jobs(jobs: Seq<JobId>)
    ensures
        name_lines(jobs).len() == jobs.len(),
        forall|i: int|
            0 <= i < jobs.len() ==> #[trigger] name_lines(jobs)[i] == job_name(',', jobs[i]) && read_arg(
                name_lines(jobs)[i],
            ) == Some(jobs[i]),
{
    assert forall|i: int| 0 <= i < jobs.len() implies #[trigger] name_lines(jobs)[i] == job_name(
        ',',
        jobs[i],
    ) && read_arg(name_lines(jobs)[i]) == Some(jobs[i]) by {
        law_printed_ids_are_read(jobs[i]);
    }
}

/// The jobs that a command is about are those that its arguments name, each in the place of its own
/// argument, or the whole queue where there are none; an argument that names no job is refused, the
/// first one where there are several.
pub proof fn law_targets(args: Seq<Seq<char>>, r: Result<Targets, CliError>)
    requires
        resolved(args, r),
    ensures
        match r {
            Ok(Targets::WholeQueue) => args.len() == 0,
            Ok(Targets::Given(ids)) => args.len() > 0 && ids@.len() == args.len() && forall|i: int|
                0 <= i < args.len() ==> read_arg(#[trigger] args[i]) == Some(ids@[i]),
            Err(CliError::InvalidJobId(text)) => exists|k: int|
                #![trigger args[k]]
                {
                    &&& 0 <= k < args.len()
                    &&& text@ == args[k]
                    &&& read_arg(args[k]) is None
                    &&& forall|i: int| 0 <= i < k ==> read_arg(#[trigger] args[i]) is Some
                },
            Err(CliError::WaitAndTest) => false,
        },
{
    match r {
        Ok(Targets::WholeQueue) => {},
        Ok(Targets::Given(ids)) => {
            law_arguments_are_read(args, Ok(ids));
        },
        Err(e) => {
            law_arguments_are_read(args, Err(e));
        },
    }
}

} // verus!
