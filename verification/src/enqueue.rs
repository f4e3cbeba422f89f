//! Queueing a job: what the process does that queues it, up to the point where the job has a worker
//! of its own.
use crate::cli::{cmd_queue, law_printed_ids_are_read, read_arg};
use crate::dir::{
    create_steps, law_creation_order, steps_view, string_texts, Error, Place, QueueDir, Step,
    StepView,
};
use crate::exec::exec_line;
use crate::job::{job_name, JobId};
use vstd::prelude::*;
use vstd::utf8::encode_utf8;

verus! {

/// One action of the process that queues a job.
#[derive(Debug)]
pub enum QueueAction {
    /// Perform this operation on the file system.
    Step(Step),
    /// Write this to the job file.
    Write(Vec<u8>),
    /// Let processes that this one starts inherit the open job file, and with it the lock on it.
    ShareFile,
    /// Start the worker for the job file `name`.
    StartWorker { name: String },
    /// Tell the user this.
    Announce(String),
}

/// A [`QueueAction`] with its texts.
pub enum QueueActionView {
    Step(StepView),
    Write(Seq<u8>),
    ShareFile,
    StartWorker { name: Seq<char> },
    Announce(Seq<char>),
}

impl View for QueueAction {
    type V = QueueActionView;

    open spec fn view(&self) -> QueueActionView {
        match self {
            QueueAction::Step(step) => QueueActionView::Step(step@),
            QueueAction::Write(bytes) => QueueActionView::Write(bytes@),
            QueueAction::ShareFile => QueueActionView::ShareFile,
            QueueAction::StartWorker { name } => QueueActionView::StartWorker { name: name@ },
            QueueAction::Announce(text) => QueueActionView::Announce(text@),
        }
    }
}

/// Some actions with their texts.
pub open spec fn actions_view(actions: Seq<QueueAction>) -> Seq<QueueActionView> {
    Seq::new(actions.len(), |i: int| actions[i]@)
}

/// Some operations on the file system as actions.
pub open spec fn file_actions(steps: Seq<StepView>) -> Seq<QueueActionView> {
    Seq::new(steps.len(), |i: int| QueueActionView::Step(steps[i]))
}

/// What follows when the job file is there and locked: the exec line is written, and a worker is
/// started that inherits the file with the lock; unless `quiet` is set, the user is told the job's ID.
pub open spec fn hand_over(id: JobId, args: Seq<Seq<char>>, quiet: bool) -> Seq<QueueActionView> {
    seq![
        QueueActionView::Write(encode_utf8(exec_line(args))),
        QueueActionView::ShareFile,
        QueueActionView::StartWorker { name: job_name(',', id) },
    ] + if quiet {
        seq![]
    } else {
        seq![QueueActionView::Announce(job_name(',', id))]
    }
}

/// All that is done to queue the arguments `args` as the job `id`.
pub open spec fn queue_plan(id: JobId, args: Seq<Seq<char>>, quiet: bool) -> Seq<QueueActionView> {
    file_actions(create_steps(id)) + hand_over(id, args, quiet)
}

/// What some actions write to the job file.
pub open spec fn written(actions: Seq<QueueActionView>) -> Seq<u8>
    decreases actions.len(),
{
    if actions.len() == 0 {
        seq![]
    } else {
        let earlier = written(actions.drop_last());
        match actions.last() {
            QueueActionView::Write(bytes) => earlier + bytes,
            _ => earlier,
        }
    }
}

/// A job file, when the job has been queued, holds its exec line and nothing else.
pub proof fn law_queued_file(id: JobId, args: Seq<Seq<char>>, quiet: bool)
    ensures
        written(queue_plan(id, args, quiet)) == encode_utf8(exec_line(args)),
{
    let plan = queue_plan(id, args, quiet);
    let line = encode_utf8(exec_line(args));
    let first = file_actions(create_steps(id));
    assert(first.len() == 4);
    assert(plan.take(4) =~= first);
    lemma_nothing_written(plan, 4);
    assert(plan.take(5).drop_last() =~= plan.take(4));
    assert(plan[4] == QueueActionView::Write(line));
    assert(written(plan.take(5)) =~= line);
    assert(plan.take(6).drop_last() =~= plan.take(5));
    assert(plan.take(7).drop_last() =~= plan.take(6));
    assert(plan[5] is ShareFile && plan[6] is StartWorker);
    assert(written(plan.take(6)) == line);
    assert(written(plan.take(7)) == line);
    if quiet {
        assert(plan.take(7) =~= plan);
    } else {
        assert(plan.drop_last() =~= plan.take(7));
        assert(plan.last() is Announce);
    }
}

proof fn lemma_nothing_written(actions: Seq<QueueActionView>, k: int)
    requires
        0 <= k <= actions.len(),
        forall|i: int| 0 <= i < k ==> !(#[trigger] actions[i] is Write),
    ensures
        written(actions.take(k)) == Seq::<u8>::empty(),
    decreases k,
{
    if k > 0 {
        lemma_nothing_written(actions, k - 1);
        assert(actions.take(k).drop_last() =~= actions.take(k - 1));
        assert(actions.take(k).last() == actions[k - 1]);
    }
}

/// What to do to queue the command `cmd` as the job `id`. `present` is the path of the job's file, as
/// it is shown, where it is there already; the job is then refused.
pub fn queue_actions(
    dir: &QueueDir,
    id: &JobId,
    present: Option<String>,
    cmd: &[String],
    quiet: bool,
) -> (r: Result<Vec<QueueAction>, Error>)
    ensures
        match present {
            Some(shown) => r matches Err(Error::Exists(path)) && path == shown,
            None => r matches Ok(actions) && actions_view(actions@) == queue_plan(
                *id,
                string_texts(cmd@),
                quiet,
            ),
        },
        present is None && !quiet ==> (r matches Ok(actions) && actions@.len() > 0 && (
        actions@.last() matches QueueAction::Announce(text) && text@ == job_name(',', *id))),
{
    let steps = match dir.create_job(id, present) {
        Ok(steps) => steps,
        Err(e) => {
            return Err(e);
        },
    };
    let mut actions = as_actions(steps);
    let job = cmd_queue(id, cmd, quiet);
    actions.push(QueueAction::Write(job.exec_line));
    actions.push(QueueAction::ShareFile);
    actions.push(QueueAction::StartWorker { name: id.filename() });
    if let Some(text) = job.announcement {
        actions.push(QueueAction::Announce(text));
    }
    assert(actions_view(actions@) =~= queue_plan(*id, string_texts(cmd@), quiet));
    Ok(actions)
}

/// Some operations on the file system as actions.
fn as_actions(steps: Vec<Step>) -> (r: Vec<QueueAction>)
    ensures
        actions_view(r@) == file_actions(steps_view(steps@)),
{
    let ghost all = steps@;
    let mut rest = steps;
    let mut actions: Vec<QueueAction> = Vec::new();
    while rest.len() > 0
        invariant
            actions@.len() + rest@.len() == all.len(),
            rest@ == all.skip(actions@.len() as int),
            forall|i: int|
                0 <= i < actions@.len() ==> (#[trigger] actions@[i])@ == QueueActionView::Step(
                    all[i]@,
                ),
        decreases rest@.len(),
    {
        let step = rest.remove(0);
        actions.push(QueueAction::Step(step));
        assert(rest@ =~= all.skip(actions@.len() as int));
    }
    assert(actions_view(actions@) =~= file_actions(steps_view(all)));
    actions
}

/// What queueing a job does, in this order: the job's file is made and locked and given its name; the
/// exec line is written; the file is shared, and the worker started for that very file; and, unless it
/// is to be quiet, the user is told its name. Nothing else is done.
pub proof fn law_queueing_order(id: JobId, args: Seq<Seq<char>>, quiet: bool)
    ensures
        ({
            let plan = queue_plan(id, args, quiet);
            &&& plan.len() == if quiet {
                7
            } else {
                8nat
            }
            &&& plan[0] == QueueActionView::Step(StepView::CreateNew { name: job_name('.', id) })
            &&& plan[1] == QueueActionView::Step(StepView::LockExclusive)
            &&& plan[2] == QueueActionView::Step(
                StepView::Rename {
                    from: job_name('.', id),
                    place: Place::Queue,
                    name: job_name(',', id),
                },
            )
            &&& plan[3] == QueueActionView::Step(StepView::SyncQueue)
            &&& plan[4] == QueueActionView::Write(encode_utf8(exec_line(args)))
            &&& plan[5] == QueueActionView::ShareFile
            &&& plan[6] == (QueueActionView::StartWorker { name: job_name(',', id) })
            &&& !quiet ==> plan[7] == QueueActionView::Announce(job_name(',', id))
        }),
{
    let first = file_actions(create_steps(id));
    let last = hand_over(id, args, quiet);
    let plan = queue_plan(id, args, quiet);
    law_creation_order(id);
    assert(first.len() == 4);
    assert(forall|k: int| 0 <= k < 4 ==> #[trigger] plan[k] == first[k]);
    assert(forall|k: int| 4 <= k < plan.len() ==> #[trigger] plan[k] == last[k - 4]);
}

/// What the user is told names the job that is queued: read as an argument it is that job, and it is
/// the name that the job's file gets and that the worker is started for. Unless it is to be quiet the
/// user is told so once; else not at all.
pub proof fn law_announced_job(id: JobId, args: Seq<Seq<char>>, quiet: bool, i: int, j: int, k: int)
    requires
        0 <= i < queue_plan(id, args, quiet).len(),
        0 <= j < queue_plan(id, args, quiet).len(),
        0 <= k < queue_plan(id, args, quiet).len(),
    ensures
        ({
            let plan = queue_plan(id, args, quiet);
            &&& plan[i] matches QueueActionView::Announce(text) ==> {
                &&& !quiet
                &&& read_arg(text) == Some(id)
                &&& plan[j] matches QueueActionView::Announce(_) ==> i == j
                &&& plan[j] matches QueueActionView::StartWorker { name } ==> name == text
                &&& plan[k] matches QueueActionView::Step(StepView::Rename { name, .. }) ==> name
                    == text
            }
            &&& !quiet ==> plan.last() is Announce
        }),
{
    law_queueing_order(id, args, quiet);
    law_printed_ids_are_read(id);
}

/// An action is seen as it is, and so is each of several.
pub proof fn law_queue_action_texts(
    step: Step,
    bytes: Vec<u8>,
    text: String,
    actions: Seq<QueueAction>,
)
    ensures
        QueueAction::Step(step)@ == QueueActionView::Step(step@),
        QueueAction::Write(bytes)@ == QueueActionView::Write(bytes@),
        QueueAction::ShareFile@ == QueueActionView::ShareFile,
        (QueueAction::StartWorker { name: text })@ == (QueueActionView::StartWorker { name: text@ }),
        QueueAction::Announce(text)@ == QueueActionView::Announce(text@),
        actions_view(actions).len() == actions.len(),
        forall|i: int|
            0 <= i < actions.len() ==> #[trigger] actions_view(actions)[i] == actions[i]@,
{
}

} // verus!
