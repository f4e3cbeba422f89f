//! The queue directory: where jobs are kept, how a job file comes to be, moves and goes, and which
//! jobs a directory holds. What is to be done in the file system is returned as [`Step`]s.
use crate::job::{before, job_name, law_order_of_jobs, read_name, JobId};
use crate::text::concat;
use vstd::prelude::*;
use vstd::string::*;

verus! {

/// What can go wrong with a queue directory.
#[derive(Debug)]
pub enum Error {
    /// An operation on the file system failed.
    Io(std::io::Error),
    /// A file name is not that of a job.
    Parse(String),
    /// The job's file is there already.
    Exists(String),
}

impl From<std::io::Error> for Error {
    fn from(e: std::io::Error) -> (r: Error) {
        Error::Io(e)
    }
}

impl vstd::std_specs::convert::FromSpecImpl<std::io::Error> for Error {
    open spec fn obeys_from_spec() -> bool {
        true
    }

    open spec fn from_spec(e: std::io::Error) -> Error {
        Error::Io(e)
    }
}

/// `ToString::to_string` on a [`std::io::Error`]. Nothing is claimed of the text: it is the
/// operating system's, and differs from one to another.
#[verifier::external_body]
fn io_error_text(e: &std::io::Error) -> (r: String)
{
    e.to_string()
}

impl Error {
    /// What is shown of the error: the kind of error, a colon and the detail. The detail of an
    /// I/O error is the operating system's own text.
    pub fn message(&self) -> (r: String)
        ensures
            match self {
                Error::Io(_) => exists|text: Seq<char>|
                    r@ == #[trigger] ("I/O error: "@ + text),
                Error::Parse(name) => r@ == "Failed to parse job filename: "@ + name@,
                Error::Exists(path) => r@ == "Job already exists: "@ + path@,
            },
    {
        match self {
            Error::Io(e) => {
                let text = io_error_text(e);
                io_message(text.as_str())
            },
            Error::Parse(name) => concat("Failed to parse job filename: ", name.as_str()),
            Error::Exists(path) => concat("Job already exists: ", path.as_str()),
        }
    }
}

/// What is shown of an I/O error for which the operating system has the text `text`.
pub fn io_message(text: &str) -> (r: String)
    ensures
        r@ == "I/O error: "@ + text@,
{
    concat("I/O error: ", text)
}

/// A directory that holds job files.
#[derive(Debug, Clone, Copy, PartialEq, Eq, Structural)]
pub enum Place {
    /// The queue directory itself.
    Queue,
    /// Where jobs go that ended with exit status 0.
    Done,
    /// Where all other jobs go when they have ended.
    Fail,
}

/// One operation on the file system. Names are names in the queue directory, unless another
/// place is given.
#[derive(Debug)]
pub enum Step {
    /// Create the file `name`, which must not be there, and open it for reading and writing.
    CreateNew { name: String },
    /// Lock the file that was opened last, for this process alone; wait until that succeeds.
    LockExclusive,
    /// Give the file `from` the name `name` in the directory `place`.
    Rename { from: String, place: Place, name: String },
    /// Commit the changes of names in the queue directory to the disk.
    SyncQueue,
    /// Open the file `name` for reading, and for writing at its end.
    OpenAppend { name: String },
    /// Remove the file `name`.
    Remove { name: String },
}

/// A [`Step`] with its texts.
pub enum StepView {
    CreateNew { name: Seq<char> },
    LockExclusive,
    Rename { from: Seq<char>, place: Place, name: Seq<char> },
    SyncQueue,
    OpenAppend { name: Seq<char> },
    Remove { name: Seq<char> },
}

impl View for Step {
    type V = StepView;

    open spec fn view(&self) -> StepView {
        match self {
            Step::CreateNew { name } => StepView::CreateNew { name: name@ },
            Step::LockExclusive => StepView::LockExclusive,
            Step::Rename { from, place, name } => StepView::Rename {
                from: from@,
                place: *place,
                name: name@,
            },
            Step::SyncQueue => StepView::SyncQueue,
            Step::OpenAppend { name } => StepView::OpenAppend { name: name@ },
            Step::Remove { name } => StepView::Remove { name: name@ },
        }
    }
}

/// Some steps with their texts.
pub open spec fn steps_view(steps: Seq<Step>) -> Seq<StepView> {
    Seq::new(steps.len(), |i: int| steps[i]@)
}

/// The steps that make the file of the job `id`: it is created under its temporary name, locked,
/// given its own name, and the new name committed.
pub open spec fn create_steps(id: JobId) -> Seq<StepView> {
    seq![
        StepView::CreateNew { name: job_name('.', id) },
        StepView::LockExclusive,
        StepView::Rename {
            from: job_name('.', id),
            place: Place::Queue,
            name: job_name(',', id),
        },
        StepView::SyncQueue,
    ]
}

/// The step that moves the file of the job `id` out of the queue to `place`.
pub open spec fn move_step(id: JobId, place: Place) -> StepView {
    StepView::Rename { from: job_name(',', id), place, name: job_name(',', id) }
}

/// The jobs that the file names `names` stand for, in the order of the names: those that start
/// with a comma and can be read.
pub open spec fn jobs_in(names: Seq<Seq<char>>) -> Seq<JobId>
    decreases names.len(),
{
    if names.len() == 0 {
        seq![]
    } else {
        let earlier = jobs_in(names.drop_last());
        let name = names.last();
        if name.len() > 0 && name[0] == ',' && read_name(name) is Some {
            earlier.push(read_name(name)->0)
        } else {
            earlier
        }
    }
}

/// Whether no job in `jobs` comes before one that stands in front of it.
pub open spec fn oldest_first(jobs: Seq<JobId>) -> bool {
    forall|i: int, j: int|
        0 <= i < j < jobs.len() ==> !before(#[trigger] jobs[j], #[trigger] jobs[i])
}

/// Whether `jobs` is the listing of a directory with the file names `names`: the jobs that these
/// stand for, the oldest first.
pub open spec fn is_listing(jobs: Seq<JobId>, names: Seq<Seq<char>>) -> bool {
    oldest_first(jobs) && jobs.to_multiset() == jobs_in(names).to_multiset()
}

/// The listing of a directory with the file names `names`.
pub open spec fn listing(names: Seq<Seq<char>>) -> Seq<JobId> {
    jobs_in(names).sort_by(|x: JobId, y: JobId| !before(y, x))
}

/// The texts of some strings.
pub open spec fn string_texts(names: Seq<String>) -> Seq<Seq<char>> {
    Seq::new(names.len(), |i: int| names[i]@)
}

/// A queue directory, and the directories that jobs are moved to when they have ended.
#[derive(Debug)]
pub struct QueueDir {
    /// The path of the queue directory.
    pub path: String,
    /// Where jobs with exit status 0 are moved, if anywhere.
    pub done_path: Option<String>,
    /// Where other jobs are moved, if anywhere.
    pub fail_path: Option<String>,
}

impl QueueDir {
    /// The directories that the environment asks for: `nqdir` is the value of `NQDIR`, `nqdonedir`
    /// that of `NQDONEDIR`, `nqfaildir` that of `NQFAILDIR`, each where it is set. The queue is
    /// the current directory by default.
    pub fn open(
        nqdir: Option<String>,
        nqdonedir: Option<String>,
        nqfaildir: Option<String>,
    ) -> (r: QueueDir)
        ensures
            nqdir matches Some(path) ==> r.path == path,
            nqdir is None ==> r.path@ == seq!['.'],
            r.done_path == nqdonedir,
            r.fail_path == nqfaildir,
    {
        let path = match nqdir {
            Some(path) => path,
            None => {
                let mut here = String::new();
                here.push('.');
                assert(here@ =~= seq!['.']);
                here
            },
        };
        QueueDir { path, done_path: nqdonedir, fail_path: nqfaildir }
    }

    /// The queue directory `path`, from which jobs are moved nowhere.
    pub fn open_at(path: String) -> (r: QueueDir)
        ensures
            r.path == path,
            r.done_path is None,
            r.fail_path is None,
    {
        QueueDir { path, done_path: None, fail_path: None }
    }

    /// The path of the directory `place`, where there is one.
    pub fn path_of(&self, place: Place) -> (r: Option<&String>)
        ensures
            match place {
                Place::Queue => r == Some(&self.path),
                Place::Done => match self.done_path {
                    Some(p) => r == Some(&p),
                    None => r is None,
                },
                Place::Fail => match self.fail_path {
                    Some(p) => r == Some(&p),
                    None => r is None,
                },
            },
    {
        match place {
            Place::Queue => Some(&self.path),
            Place::Done => self.done_path.as_ref(),
            Place::Fail => self.fail_path.as_ref(),
        }
    }

    /// The texts of the paths that [`QueueDir::directories`] returns.
    pub open spec fn wanted(&self) -> Seq<Seq<char>> {
        seq![self.path@] + (match self.done_path {
            Some(path) => seq![path@],
            None => seq![],
        }) + (match self.fail_path {
            Some(path) => seq![path@],
            None => seq![],
        })
    }

    /// The directories that have to be there, and are to be made where they are missing: the queue
    /// directory, and those that jobs are moved to, where there are any.
    pub fn directories(&self) -> (r: Vec<String>)
        ensures
            string_texts(r@) == self.wanted(),
            r@.len() == 1 + if self.done_path is Some {
                1int
            } else {
                0
            } + if self.fail_path is Some {
                1int
            } else {
                0
            },
            r@[0]@ == self.path@,
            self.done_path matches Some(path) ==> r@[1]@ == path@,
            self.fail_path matches Some(path) ==> r@.last()@ == path@,
    {
        let mut paths: Vec<String> = Vec::new();
        paths.push(self.path.clone());
        if let Some(path) = &self.done_path {
            paths.push(path.clone());
        }
        if let Some(path) = &self.fail_path {
            paths.push(path.clone());
        }
        assert(string_texts(paths@) =~= self.wanted());
        paths
    }

    /// How to create the file of the job `id`. `present` is the path of that file, as it is
    /// shown, where it is there already; the job is then refused.
    pub fn create_job(&self, id: &JobId, present: Option<String>) -> (r: Result<Vec<Step>, Error>)
        ensures
            match present {
                Some(shown) => r matches Err(Error::Exists(path)) && path == shown,
                None => r matches Ok(steps) && steps_view(steps@) == create_steps(*id),
            },
    {
        match present {
            Some(shown) => Err(Error::Exists(shown)),
            None => {
                let mut steps: Vec<Step> = Vec::new();
                steps.push(Step::CreateNew { name: id.temp_filename() });
                steps.push(Step::LockExclusive);
                steps.push(
                    Step::Rename {
                        from: id.temp_filename(),
                        place: Place::Queue,
                        name: id.filename(),
                    },
                );
                steps.push(Step::SyncQueue);
                assert(steps_view(steps@) =~= create_steps(*id));
                Ok(steps)
            },
        }
    }

    /// The jobs in the queue directory, the oldest first, where `names` are the names of the
    /// files in it. Files that are being made, and files that are no jobs, are left out.
    pub fn list_jobs(&self, names: &Vec<String>) -> (r: Vec<JobId>)
        ensures
            is_listing(r@, string_texts(names@)),
            forall|i: int, j: int|
                0 <= i < j < r@.len() ==> (#[trigger] r@[i]).timestamp_ms < (
                #[trigger] r@[j]).timestamp_ms || (r@[i].timestamp_ms == r@[j].timestamp_ms
                    && r@[i].pid <= r@[j].pid),
    {
        let jobs = list_names(names);
        proof {
            law_listing_by_time(jobs@, string_texts(names@), JobId { timestamp_ms: 0, pid: 0 });
        }
        jobs
    }

    /// How to open the file of the job `id` for reading and appending.
    pub fn open_job(&self, id: &JobId) -> (r: Step)
        ensures
            r@ == (StepView::OpenAppend { name: job_name(',', *id) }),
    {
        Step::OpenAppend { name: id.filename() }
    }

    /// How to move the file of the job `id` to the directory for jobs that succeeded; nothing is
    /// to be done where there is none.
    pub fn move_to_done(&self, id: &JobId) -> (r: Option<Step>)
        ensures
            match r {
                Some(step) => self.done_path is Some && step@ == move_step(*id, Place::Done),
                None => self.done_path is None,
            },
    {
        if self.done_path.is_some() {
            Some(Step::Rename { from: id.filename(), place: Place::Done, name: id.filename() })
        } else {
            None
        }
    }

    /// How to move the file of the job `id` to the directory for jobs that failed; nothing is to
    /// be done where there is none.
    pub fn move_to_fail(&self, id: &JobId) -> (r: Option<Step>)
        ensures
            match r {
                Some(step) => self.fail_path is Some && step@ == move_step(*id, Place::Fail),
                None => self.fail_path is None,
            },
    {
        if self.fail_path.is_some() {
            Some(Step::Rename { from: id.filename(), place: Place::Fail, name: id.filename() })
        } else {
            None
        }
    }

    /// How to remove the file of the job `id`.
    pub fn remove_job(&self, id: &JobId) -> (r: Step)
        ensures
            r@ == (StepView::Remove { name: job_name(',', *id) }),
    {
        Step::Remove { name: id.filename() }
    }
}

/// The jobs that the file names `names` stand for, the oldest first.
pub(crate) fn list_names(names: &Vec<String>) -> (r: Vec<JobId>)
    ensures
        is_listing(r@, string_texts(names@)),
{
    let ghost all = string_texts(names@);
    let mut jobs: Vec<JobId> = Vec::new();
    let mut i: usize = 0;
    assert(all.take(0) =~= Seq::<Seq<char>>::empty());
    while i < names.len()
        invariant
            i <= names@.len(),
            all == string_texts(names@),
            is_listing(jobs@, all.take(i as int)),
        decreases names@.len() - i,
    {
        let name: &str = names[i].as_str();
        proof {
            assert(all.take(i + 1).drop_last() =~= all.take(i as int));
            assert(all.take(i + 1).last() == name@);
        }
        if starts_with_comma(name) {
            if let Some(id) = JobId::from_filename(name) {
                insert_in_order(&mut jobs, id);
                proof {
                    vstd::seq_lib::to_multiset_build(jobs_in(all.take(i as int)), id);
                }
            }
        }
        i = i + 1;
    }
    assert(all.take(i as int) =~= all);
    jobs
}

fn starts_with_comma(name: &str) -> (r: bool)
    ensures
        r == (name@.len() > 0 && name@[0] == ','),
{
    !name.is_empty() && name.get_char(0) == ','
}

/// Puts `id` into `jobs`, which are in order, where it belongs.
fn insert_in_order(jobs: &mut Vec<JobId>, id: JobId)
    requires
        oldest_first(old(jobs)@),
    ensures
        oldest_first(final(jobs)@),
        final(jobs)@.to_multiset() == old(jobs)@.to_multiset().insert(id),
{
    let mut at: usize = jobs.len();
    while at > 0 && id < jobs[at - 1]
        invariant
            at <= jobs@.len(),
            jobs@ == old(jobs)@,
            forall|j: int| at <= j < jobs@.len() ==> before(id, #[trigger] jobs@[j]),
        decreases at,
    {
        at = at - 1;
    }
    let ghost earlier = jobs@;
    proof {
        vstd::seq_lib::to_multiset_insert(earlier, at as int, id);
        assert(at > 0 ==> !before(id, earlier[at - 1]));
        assert forall|i: int| 0 <= i < at implies !before(id, #[trigger] earlier[i]) by {
            if i < at - 1 {
                assert(!before(earlier[at - 1], earlier[i]));
            }
        }
    }
    jobs.insert(at, id);
}

/// The texts of some strings are as many as the strings, and each is that of its own string.
pub proof fn law_string_texts(names: Seq<String>)
    ensures
        string_texts(names).len() == names.len(),
        forall|i: int| 0 <= i < names.len() ==> #[trigger] string_texts(names)[i] == names[i]@,
{
}

/// A step with its texts is that step, on those names, in that place; and so is each of several.
pub proof fn law_step_texts(a: String, b: String, place: Place, steps: Seq<Step>)
    ensures
        (Step::CreateNew { name: a })@ == (StepView::CreateNew { name: a@ }),
        Step::LockExclusive@ == StepView::LockExclusive,
        (Step::Rename { from: a, place, name: b })@ == (StepView::Rename {
            from: a@,
            place,
            name: b@,
        }),
        Step::SyncQueue@ == StepView::SyncQueue,
        (Step::OpenAppend { name: a })@ == (StepView::OpenAppend { name: a@ }),
        (Step::Remove { name: a })@ == (StepView::Remove { name: a@ }),
        steps_view(steps).len() == steps.len(),
        forall|i: int| 0 <= i < steps.len() ==> #[trigger] steps_view(steps)[i] == steps[i]@,
{
}

/// A job file is made under its temporary name, locked, given its own name, and that is committed; in
/// this order, and nothing else is done.
pub proof fn law_creation_order(id: JobId)
    ensures
        create_steps(id).len() == 4,
        create_steps(id)[0] == (StepView::CreateNew { name: job_name('.', id) }),
        create_steps(id)[1] == StepView::LockExclusive,
        create_steps(id)[2] == (StepView::Rename {
            from: job_name('.', id),
            place: Place::Queue,
            name: job_name(',', id),
        }),
        create_steps(id)[3] == StepView::SyncQueue,
{
}

/// A job file that is moved keeps its name, and goes to the place that is asked for.
pub proof fn law_move_keeps_name(id: JobId, place: Place)
    ensures
        move_step(id, place) == (StepView::Rename {
            from: job_name(',', id),
            place,
            name: job_name(',', id),
        }),
{
}

/// The jobs that some names stand for are found name by name: each name stands for the one job that it
/// is read as, if it starts with a comma and is read at all, and for none otherwise.
pub proof fn law_jobs_in(a: Seq<Seq<char>>, b: Seq<Seq<char>>, name: Seq<char>)
    ensures
        jobs_in(a + b) == jobs_in(a) + jobs_in(b),
        jobs_in(Seq::<Seq<char>>::empty()) == Seq::<JobId>::empty(),
        name.len() > 0 && name[0] == ',' ==> (read_name(name) matches Some(id) ==> jobs_in(
            seq![name],
        ) == seq![id]),
        name.len() == 0 || name[0] != ',' || read_name(name) is None ==> jobs_in(seq![name])
            == Seq::<JobId>::empty(),
    decreases b.len(),
{
    let one = seq![name];
    assert(one.drop_last() =~= Seq::<Seq<char>>::empty());
    assert(jobs_in(one.drop_last()) =~= Seq::<JobId>::empty());
    if read_name(name) is Some {
        assert(Seq::<JobId>::empty().push(read_name(name)->0) =~= seq![read_name(name)->0]);
    }
    if b.len() == 0 {
        assert(a + b =~= a);
        assert(jobs_in(a) + jobs_in(b) =~= jobs_in(a));
    } else {
        law_jobs_in(a, b.drop_last(), name);
        assert((a + b).drop_last() =~= a + b.drop_last());
        assert((a + b).last() == b.last());
        assert(jobs_in(a + b) =~= jobs_in(a) + jobs_in(b));
    }
}

/// A listing has the oldest job first: of two jobs in it, the one that stands in front has the earlier
/// time, or the same time and no greater process ID. It holds each job as often as the names stand for
/// it, so that it is as long as there are such names.
pub proof fn law_listing_by_time(jobs: Seq<JobId>, names: Seq<Seq<char>>, id: JobId)
    requires
        is_listing(jobs, names),
    ensures
        forall|i: int, j: int|
            0 <= i < j < jobs.len() ==> (#[trigger] jobs[i]).timestamp_ms < (
            #[trigger] jobs[j]).timestamp_ms || (jobs[i].timestamp_ms == jobs[j].timestamp_ms
                && jobs[i].pid <= jobs[j].pid),
        jobs.to_multiset().count(id) == jobs_in(names).to_multiset().count(id),
        jobs.len() == jobs_in(names).len(),
{
    assert forall|i: int, j: int| 0 <= i < j < jobs.len() implies (
    #[trigger] jobs[i]).timestamp_ms < (#[trigger] jobs[j]).timestamp_ms || (jobs[i].timestamp_ms
        == jobs[j].timestamp_ms && jobs[i].pid <= jobs[j].pid) by {
        assert(!before(jobs[j], jobs[i]));
        law_order_of_jobs(jobs[i], jobs[j]);
        law_order_of_jobs(jobs[j], jobs[i]);
    }
    vstd::seq_lib::to_multiset_len(jobs);
    vstd::seq_lib::to_multiset_len(jobs_in(names));
}

} // verus!
