//! A model of the directories that jobs live in, and what the steps of `dir` do to it.
use crate::dir::{
    create_steps, is_listing, jobs_in, listing, move_step, oldest_first, Place, StepView,
};
use crate::job::{
    before, job_name, law_name_round_trip, law_names_distinct, law_temp_names_apart, read_name,
    JobId,
};
use vstd::prelude::*;
use vstd::relations::{sorted_by, total_ordering};

verus! {

/// The names in the three directories, and the file that the process at work has open.
pub struct Spool {
    /// The names in the queue directory.
    pub queue: Set<Seq<char>>,
    /// The names in the directory for jobs that succeeded.
    pub done: Set<Seq<char>>,
    /// The names in the directory for jobs that failed.
    pub fail: Set<Seq<char>>,
    /// The names in the queue directory that are sure to survive a crash.
    pub durable: Set<Seq<char>>,
    /// The name, in the queue directory, of the file that was opened last.
    pub open: Option<Seq<char>>,
    /// Whether the process has that file locked for itself.
    pub locked: bool,
}

/// What a step, where it succeeds, makes of a spool. A lock belongs to the open file, so it stays
/// when the file gets another name.
pub open spec fn after_step(s: Spool, step: StepView) -> Spool {
    match step {
        StepView::CreateNew { name } => Spool {
            queue: s.queue.insert(name),
            open: Some(name),
            locked: false,
            ..s
        },
        StepView::LockExclusive => Spool { locked: true, ..s },
        StepView::Rename { from, place, name } => {
            let gone = Spool { queue: s.queue.remove(from), ..s };
            match place {
                Place::Queue => Spool {
                    queue: gone.queue.insert(name),
                    open: if s.open == Some(from) {
                        Some(name)
                    } else {
                        s.open
                    },
                    ..gone
                },
                Place::Done => Spool { done: s.done.insert(name), ..gone },
                Place::Fail => Spool { fail: s.fail.insert(name), ..gone },
            }
        },
        StepView::SyncQueue => Spool { durable: s.queue, ..s },
        StepView::OpenAppend { name } => Spool { open: Some(name), locked: false, ..s },
        StepView::Remove { name } => Spool { queue: s.queue.remove(name), ..s },
    }
}

/// What some steps make of a spool, one after the other.
pub open spec fn after_steps(s: Spool, steps: Seq<StepView>) -> Spool
    decreases steps.len(),
{
    if steps.len() == 0 {
        s
    } else {
        after_step(after_steps(s, steps.drop_last()), steps.last())
    }
}

/// The spool after the first `k` of the steps that create the job `id`.
pub open spec fn while_creating(s: Spool, id: JobId, k: int) -> Spool {
    after_steps(s, create_steps(id).take(k))
}

/// Whether the job `id` can be created: none of its two names is taken.
pub open spec fn is_free(s: Spool, id: JobId) -> bool {
    !s.queue.contains(job_name(',', id)) && !s.queue.contains(job_name('.', id))
}

/// One step more of the creation of a job.
proof fn lemma_creation_step(s: Spool, id: JobId, k: int)
    requires
        0 <= k < 4,
    ensures
        while_creating(s, id, k + 1) == after_step(
            while_creating(s, id, k),
            create_steps(id)[k],
        ),
{
    let steps = create_steps(id);
    assert(steps.take(k + 1).drop_last() =~= steps.take(k));
    assert(steps.take(k + 1).last() == steps[k]);
}

proof fn lemma_creation(s: Spool, id: JobId)
    ensures
        while_creating(s, id, 0) == s,
        ({
            let steps = create_steps(id);
            &&& while_creating(s, id, 1) == after_step(s, steps[0])
            &&& while_creating(s, id, 2) == after_step(while_creating(s, id, 1), steps[1])
            &&& while_creating(s, id, 3) == after_step(while_creating(s, id, 2), steps[2])
            &&& while_creating(s, id, 4) == after_step(while_creating(s, id, 3), steps[3])
        }),
{
    assert(create_steps(id).take(0) =~= Seq::<StepView>::empty());
    lemma_creation_step(s, id, 0);
    lemma_creation_step(s, id, 1);
    lemma_creation_step(s, id, 2);
    lemma_creation_step(s, id, 3);
}

/// Creating a job adds its name to the queue and changes no other name; the name is committed to
/// the disk, and the job's file is open and locked.
pub proof fn law_create(s: Spool, id: JobId)
    requires
        is_free(s, id),
    ensures
        ({
            let t = while_creating(s, id, 4);
            &&& t.queue == s.queue.insert(job_name(',', id))
            &&& t.done == s.done
            &&& t.fail == s.fail
            &&& t.durable == t.queue
            &&& t.open == Some(job_name(',', id))
            &&& t.locked
        }),
        while_creating(s, id, 4) == after_steps(s, create_steps(id)),
{
    lemma_creation(s, id);
    law_temp_names_apart(id, id);
    assert(while_creating(s, id, 4).queue =~= s.queue.insert(job_name(',', id)));
    assert(create_steps(id).take(4) =~= create_steps(id));
}

/// However far creating a job has come, the job is listed only once its file is locked, and no
/// other job has come or gone.
pub proof fn law_create_interrupted(s: Spool, id: JobId, k: int)
    requires
        is_free(s, id),
        0 <= k <= 4,
    ensures
        ({
            let t = while_creating(s, id, k);
            &&& t.queue.contains(job_name(',', id)) ==> t.locked && t.open == Some(
                job_name(',', id),
            )
            &&& forall|other: JobId|
                other != id ==> (#[trigger] t.queue.contains(job_name(',', other))
                    <==> s.queue.contains(job_name(',', other)))
        }),
{
    lemma_creation(s, id);
    law_temp_names_apart(id, id);
    assert forall|other: JobId| other != id implies job_name(',', other) != job_name(',', id)
        && #[trigger] job_name(',', other) != job_name('.', id) by {
        law_names_distinct(other, id);
        law_temp_names_apart(other, id);
    }
}

/// Removing a job that was just created leaves the names in the queue as they were before.
pub proof fn law_remove_undoes_create(s: Spool, id: JobId)
    requires
        is_free(s, id),
    ensures
        after_step(
            after_steps(s, create_steps(id)),
            StepView::Remove { name: job_name(',', id) },
        ).queue == s.queue,
{
    law_create(s, id);
    assert(s.queue.insert(job_name(',', id)).remove(job_name(',', id)) =~= s.queue);
}

/// A job that is moved is no longer in the queue and is where it was moved to, and that is all
/// that changes.
pub proof fn law_move(s: Spool, id: JobId)
    ensures
        ({
            let t = after_step(s, move_step(id, Place::Done));
            &&& !t.queue.contains(job_name(',', id))
            &&& t.queue == s.queue.remove(job_name(',', id))
            &&& t.done == s.done.insert(job_name(',', id))
            &&& t.fail == s.fail
        }),
        ({
            let t = after_step(s, move_step(id, Place::Fail));
            &&& !t.queue.contains(job_name(',', id))
            &&& t.queue == s.queue.remove(job_name(',', id))
            &&& t.fail == s.fail.insert(job_name(',', id))
            &&& t.done == s.done
        }),
{
}

/// A directory that holds the file of the job `id` lists it.
pub proof fn law_job_is_listed(names: Seq<Seq<char>>, id: JobId, jobs: Seq<JobId>)
    requires
        names.contains(job_name(',', id)),
        is_listing(jobs, names),
    ensures
        jobs.contains(id),
{
    lemma_named_job(names, id);
    vstd::seq_lib::to_multiset_contains(jobs, id);
    vstd::seq_lib::to_multiset_contains(jobs_in(names), id);
}

proof fn lemma_named_job(names: Seq<Seq<char>>, id: JobId)
    requires
        names.contains(job_name(',', id)),
    ensures
        jobs_in(names).contains(id),
    decreases names.len(),
{
    law_name_round_trip(id);
    let name = job_name(',', id);
    let k = choose|k: int| 0 <= k < names.len() && names[k] == name;
    let front = names.drop_last();
    let earlier = jobs_in(front);
    if k == names.len() - 1 {
        assert(name[0] == ',');
        assert(jobs_in(names) == earlier.push(id));
        assert(jobs_in(names).last() == id);
    } else {
        assert(front[k] == name);
        lemma_named_job(front, id);
        let i = choose|i: int| 0 <= i < earlier.len() && earlier[i] == id;
        assert(jobs_in(names)[i] == id);
    }
}

/// Every job that a directory lists is the reading of the name of one of its files, a name that
/// starts with a comma: files that are being made are not listed.
pub proof fn law_listed_job_is_there(names: Seq<Seq<char>>, id: JobId, jobs: Seq<JobId>)
    requires
        jobs.contains(id),
        is_listing(jobs, names),
    ensures
        exists|k: int|
            0 <= k < names.len() && read_name(#[trigger] names[k]) == Some(id) && names[k][0]
                == ',',
{
    vstd::seq_lib::to_multiset_contains(jobs, id);
    vstd::seq_lib::to_multiset_contains(jobs_in(names), id);
    lemma_job_has_name(names, id);
}

proof fn lemma_job_has_name(names: Seq<Seq<char>>, id: JobId)
    requires
        jobs_in(names).contains(id),
    ensures
        exists|k: int|
            0 <= k < names.len() && read_name(#[trigger] names[k]) == Some(id) && names[k][0]
                == ',',
    decreases names.len(),
{
    let found = jobs_in(names);
    let i = choose|i: int| 0 <= i < found.len() && found[i] == id;
    let front = names.drop_last();
    let earlier = jobs_in(front);
    if i < earlier.len() {
        assert(earlier[i] == id);
        lemma_job_has_name(front, id);
        let k = choose|k: int|
            0 <= k < front.len() && read_name(#[trigger] front[k]) == Some(id) && front[k][0]
                == ',';
        assert(names[k] == front[k]);
    } else {
        assert(names[names.len() - 1] == names.last());
    }
}

/// The order of jobs is a total one, and a sequence of jobs with the oldest first is sorted by it.
proof fn lemma_job_order(jobs: Seq<JobId>)
    ensures
        total_ordering(|x: JobId, y: JobId| !before(y, x)),
        oldest_first(jobs) <==> sorted_by(jobs, |x: JobId, y: JobId| !before(y, x)),
{
    let leq = |x: JobId, y: JobId| !before(y, x);
    assert(total_ordering(leq));
    if oldest_first(jobs) {
        assert forall|i: int, j: int| 0 <= i < j < jobs.len() implies #[trigger] leq(
            jobs[i],
            jobs[j],
        ) by {}
    }
    if sorted_by(jobs, leq) {
        assert forall|i: int, j: int| 0 <= i < j < jobs.len() implies !before(
            #[trigger] jobs[j],
            #[trigger] jobs[i],
        ) by {
            assert(leq(jobs[i], jobs[j]));
        }
    }
}

/// A directory has one listing, whatever the order in which its names are read.
pub proof fn law_one_listing(a: Seq<JobId>, b: Seq<JobId>, m: Seq<Seq<char>>, n: Seq<Seq<char>>)
    requires
        is_listing(a, m),
        is_listing(b, n),
        m.to_multiset() == n.to_multiset(),
    ensures
        a == b,
{
    lemma_jobs_of_same_names(m, n);
    lemma_job_order(a);
    lemma_job_order(b);
    vstd::seq_lib::lemma_sorted_unique(a, b, |x: JobId, y: JobId| !before(y, x));
}

/// What `is_listing` says of a sequence is that it is the one that `listing` returns.
pub proof fn lemma_listing(jobs: Seq<JobId>, names: Seq<Seq<char>>)
    ensures
        is_listing(jobs, names) <==> jobs == listing(names),
{
    let leq = |x: JobId, y: JobId| !before(y, x);
    lemma_job_order(listing(names));
    jobs_in(names).lemma_sort_by_ensures(leq);
    if is_listing(jobs, names) {
        law_one_listing(jobs, listing(names), names, names);
    }
}

/// The same names in another order stand for the same jobs in another order.
proof fn lemma_jobs_of_same_names(m: Seq<Seq<char>>, n: Seq<Seq<char>>)
    requires
        m.to_multiset() == n.to_multiset(),
    ensures
        jobs_in(m).to_multiset() == jobs_in(n).to_multiset(),
    decreases m.len(),
{
    vstd::seq_lib::to_multiset_len(m);
    vstd::seq_lib::to_multiset_len(n);
    if m.len() > 0 {
        let name = m.last();
        let front = m.drop_last();
        vstd::seq_lib::to_multiset_contains(m, name);
        vstd::seq_lib::to_multiset_contains(n, name);
        assert(m[m.len() - 1] == name);
        let k = choose|k: int| 0 <= k < n.len() && n[k] == name;
        let rest = n.remove(k);
        vstd::seq_lib::to_multiset_remove(n, k);
        assert(front =~= m.remove(m.len() - 1));
        vstd::seq_lib::to_multiset_remove(m, m.len() - 1);
        lemma_jobs_of_same_names(front, rest);
        lemma_jobs_without(n, k);
        assert(m =~= front.push(name));
        if name.len() > 0 && name[0] == ',' && read_name(name) is Some {
            vstd::seq_lib::to_multiset_build(jobs_in(front), read_name(name)->0);
        }
    } else {
        assert(m =~= n);
    }
}

/// Taking one name out takes out the one job that it stands for, if it stands for one.
proof fn lemma_jobs_without(n: Seq<Seq<char>>, k: int)
    requires
        0 <= k < n.len(),
    ensures
        ({
            let name = n[k];
            let rest = jobs_in(n.remove(k)).to_multiset();
            jobs_in(n).to_multiset() == if name.len() > 0 && name[0] == ',' && read_name(
                name,
            ) is Some {
                rest.insert(read_name(name)->0)
            } else {
                rest
            }
        }),
    decreases n.len(),
{
    let last = n.last();
    let front = n.drop_last();
    if last.len() > 0 && last[0] == ',' && read_name(last) is Some {
        vstd::seq_lib::to_multiset_build(jobs_in(front), read_name(last)->0);
    }
    if k == n.len() - 1 {
        assert(n.remove(k) =~= front);
    } else {
        let without = n.remove(k);
        assert(without.last() == last);
        assert(without.drop_last() =~= front.remove(k));
        lemma_jobs_without(front, k);
        assert(front[k] == n[k]);
        if last.len() > 0 && last[0] == ',' && read_name(last) is Some {
            let id = read_name(last)->0;
            vstd::seq_lib::to_multiset_build(jobs_in(without.drop_last()), id);
            assert(jobs_in(n).to_multiset() =~= jobs_in(front).to_multiset().insert(id));
            let base = jobs_in(front.remove(k)).to_multiset();
            if n[k].len() > 0 && n[k][0] == ',' && read_name(n[k]) is Some {
                let other = read_name(n[k])->0;
                assert(base.insert(other).insert(id) =~= base.insert(id).insert(other));
            }
        }
    }
}

/// The listing of a directory is a listing of it, and the only one.
pub proof fn law_the_listing(names: Seq<Seq<char>>, jobs: Seq<JobId>)
    ensures
        is_listing(listing(names), names),
        is_listing(jobs, names) ==> jobs == listing(names),
{
    lemma_listing(listing(names), names);
    lemma_listing(jobs, names);
}

} // verus!
