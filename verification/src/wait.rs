//! Waiting for jobs and testing whether they are done, one job after the other. The runs here say
//! what to do next; what is found out by doing it is handed back to them.
use crate::job::{job_name, JobId};
use vstd::prelude::*;

verus! {

/// What a [`WaitRun`] has come to with the job at hand.
#[derive(Debug, Clone, Copy, PartialEq, Eq, Structural)]
pub enum WaitPhase {
    /// Its file is to be opened.
    Open,
    /// It is to be found out whether the job is running.
    Probe,
    /// The job is running; its end is to be waited for.
    Block,
    /// The job is done; its file is no longer to be executable.
    Clear,
}

/// The next thing to do in waiting for jobs.
#[derive(Debug)]
pub enum WaitAction {
    /// Open the job file `name`; tell whether it could be opened.
    Open { name: String },
    /// Tell whether the file is locked, which it is while the job is queued or running.
    Probe,
    /// Wait until the file is not locked.
    Block,
    /// Take the leave to execute from the file `name`.
    Clear { name: String },
    /// Nothing: all jobs are done with.
    Finished,
}

/// A [`WaitAction`] with its text.
pub enum WaitActionView {
    Open { name: Seq<char> },
    Probe,
    Block,
    Clear { name: Seq<char> },
    Finished,
}

impl View for WaitAction {
    type V = WaitActionView;

    open spec fn view(&self) -> WaitActionView {
        match self {
            WaitAction::Open { name } => WaitActionView::Open { name: name@ },
            WaitAction::Probe => WaitActionView::Probe,
            WaitAction::Block => WaitActionView::Block,
            WaitAction::Clear { name } => WaitActionView::Clear { name: name@ },
            WaitAction::Finished => WaitActionView::Finished,
        }
    }
}

/// A wait for some jobs, in their order.
#[derive(Debug)]
pub struct WaitRun {
    /// The jobs.
    pub targets: Vec<JobId>,
    /// How many of them are done with.
    pub next: usize,
    /// What has come of the next one.
    pub phase: WaitPhase,
    /// Whether the files of jobs that are done are to lose the leave to execute.
    pub clear: bool,
}

/// A [`WaitRun`] with its jobs as a sequence.
pub struct WaitView {
    pub targets: Seq<JobId>,
    pub next: nat,
    pub phase: WaitPhase,
    pub clear: bool,
}

impl View for WaitRun {
    type V = WaitView;

    open spec fn view(&self) -> WaitView {
        WaitView {
            targets: self.targets@,
            next: self.next as nat,
            phase: self.phase,
            clear: self.clear,
        }
    }
}

/// A wait for `targets` that has not begun.
pub open spec fn wait_start(targets: Seq<JobId>, clear: bool) -> WaitView {
    WaitView { targets, next: 0, phase: WaitPhase::Open, clear }
}

/// Whether all jobs are done with.
pub open spec fn wait_finished(w: WaitView) -> bool {
    w.next >= w.targets.len()
}

/// What is to be done next in a wait.
pub open spec fn wait_action(w: WaitView) -> WaitActionView {
    if wait_finished(w) {
        WaitActionView::Finished
    } else {
        let name = job_name(',', w.targets[w.next as int]);
        match w.phase {
            WaitPhase::Open => WaitActionView::Open { name },
            WaitPhase::Probe => WaitActionView::Probe,
            WaitPhase::Block => WaitActionView::Block,
            WaitPhase::Clear => WaitActionView::Clear { name },
        }
    }
}

/// A wait that goes on with the next job.
pub open spec fn wait_next(w: WaitView) -> WaitView {
    WaitView { next: w.next + 1, phase: WaitPhase::Open, ..w }
}

/// A wait whose job at hand is done.
pub open spec fn wait_settled(w: WaitView) -> WaitView {
    if w.clear {
        WaitView { phase: WaitPhase::Clear, ..w }
    } else {
        wait_next(w)
    }
}

/// A wait after its next action was done; `yes` is the answer, where the action asks for one. A
/// file that cannot be opened is that of a job that is gone, and is passed over.
pub open spec fn wait_advanced(w: WaitView, yes: bool) -> WaitView {
    if wait_finished(w) {
        w
    } else {
        match w.phase {
            WaitPhase::Open => if yes {
                WaitView { phase: WaitPhase::Probe, ..w }
            } else {
                wait_next(w)
            },
            WaitPhase::Probe => if yes {
                WaitView { phase: WaitPhase::Block, ..w }
            } else {
                wait_settled(w)
            },
            WaitPhase::Block => wait_settled(w),
            WaitPhase::Clear => wait_next(w),
        }
    }
}

impl WaitRun {
    /// A wait for `targets`. Where `clear` is set, the files of jobs that are done lose the leave
    /// to execute.
    pub fn new(targets: Vec<JobId>, clear: bool) -> (r: WaitRun)
        ensures
            r@ == wait_start(targets@, clear),
            r.targets == targets,
            r.next == 0,
            r.phase == WaitPhase::Open,
            r.clear == clear,
    {
        WaitRun { targets, next: 0, phase: WaitPhase::Open, clear }
    }

    /// What is to be done next.
    pub fn action(&self) -> (r: WaitAction)
        ensures
            r@ == wait_action(self@),
            r is Finished <==> self.next >= self.targets@.len(),
            r matches WaitAction::Open { name } ==> name@ == job_name(
                ',',
                self.targets@[self.next as int],
            ),
            r matches WaitAction::Clear { name } ==> name@ == job_name(
                ',',
                self.targets@[self.next as int],
            ),
    {
        if self.next >= self.targets.len() {
            return WaitAction::Finished;
        }
        let id = self.targets[self.next];
        match self.phase {
            WaitPhase::Open => WaitAction::Open { name: id.filename() },
            WaitPhase::Probe => WaitAction::Probe,
            WaitPhase::Block => WaitAction::Block,
            WaitPhase::Clear => WaitAction::Clear { name: id.filename() },
        }
    }

    /// Whether all jobs are done with.
    pub fn finished(&self) -> (r: bool)
        ensures
            r == wait_finished(self@),
            r == (self.next >= self.targets@.len()),
    {
        self.next >= self.targets.len()
    }

    /// Goes on after the action was done. `yes` says, of [`WaitAction::Open`], whether the file
    /// could be opened, and of [`WaitAction::Probe`] whether it is locked.
    pub fn advance(&mut self, yes: bool)
        ensures
            final(self)@ == wait_advanced(old(self)@, yes),
            final(self).targets == old(self).targets,
            final(self).clear == old(self).clear,
            old(self).next <= final(self).next <= old(self).next + 1,
            final(self).next > old(self).next ==> {
                ||| old(self).phase == WaitPhase::Open && !yes
                ||| old(self).phase == WaitPhase::Probe && !yes
                ||| old(self).phase == WaitPhase::Block
                ||| old(self).phase == WaitPhase::Clear
            },
    {
        if self.next >= self.targets.len() {
            return ;
        }
        match self.phase {
            WaitPhase::Open => {
                if yes {
                    self.phase = WaitPhase::Probe;
                } else {
                    self.next = self.next + 1;
                    self.phase = WaitPhase::Open;
                }
            },
            WaitPhase::Probe => {
                if yes {
                    self.phase = WaitPhase::Block;
                } else {
                    self.settle();
                }
            },
            WaitPhase::Block => {
                self.settle();
            },
            WaitPhase::Clear => {
                self.next = self.next + 1;
                self.phase = WaitPhase::Open;
            },
        }
    }

    fn settle(&mut self)
        requires
            old(self).next < old(self).targets.len(),
        ensures
            final(self)@ == wait_settled(old(self)@),
            final(self).targets == old(self).targets,
            final(self).clear == old(self).clear,
            old(self).next <= final(self).next <= old(self).next + 1,
    {
        if self.clear {
            self.phase = WaitPhase::Clear;
        } else {
            self.next = self.next + 1;
            self.phase = WaitPhase::Open;
        }
    }
}

/// What is found out of a job when its turn comes.
pub enum Fate {
    /// Its file is nowhere to be found.
    Gone,
    /// Its file is no longer in the queue: it was moved when the job had ended.
    Moved,
    /// Its file is not locked: the job is done.
    Idle,
    /// Its file is locked: the job is queued or running.
    Running,
}

/// Whether the file of a job that fares so is in the queue directory.
pub open spec fn is_queued(fate: Fate) -> bool {
    fate is Idle || fate is Running
}

/// The answer to the next action of a wait, where the jobs fare as `fates` say.
pub open spec fn wait_answer(w: WaitView, fates: Seq<Fate>) -> bool {
    match w.phase {
        WaitPhase::Open => is_queued(fates[w.next as int]),
        WaitPhase::Probe => fates[w.next as int] is Running,
        _ => true,
    }
}

/// A number that every action of a wait makes smaller.
pub open spec fn wait_left(w: WaitView) -> nat {
    if wait_finished(w) {
        0
    } else {
        let taken: int = match w.phase {
            WaitPhase::Open => 0,
            WaitPhase::Probe => 1,
            WaitPhase::Block => 2,
            WaitPhase::Clear => 3,
        };
        (4 * (w.targets.len() - w.next) - taken) as nat
    }
}

/// All that is done in a wait from `w` on, where the jobs fare as `fates` say.
pub open spec fn wait_performed(w: WaitView, fates: Seq<Fate>) -> Seq<WaitActionView>
    decreases wait_left(w),
{
    if wait_finished(w) {
        seq![]
    } else {
        seq![wait_action(w)] + wait_performed(wait_advanced(w, wait_answer(w, fates)), fates)
    }
}

/// What is done for one job: a file that is not in the queue is passed over; a job that is running is waited
/// for; when the job is done its file loses the leave to execute, where that is asked for.
pub open spec fn wait_for_one(id: JobId, fate: Fate, clear: bool) -> Seq<WaitActionView> {
    let name = job_name(',', id);
    let end = if clear {
        seq![WaitActionView::Clear { name }]
    } else {
        seq![]
    };
    match fate {
        Fate::Gone | Fate::Moved => seq![WaitActionView::Open { name }],
        Fate::Idle => seq![WaitActionView::Open { name }, WaitActionView::Probe] + end,
        Fate::Running => seq![
            WaitActionView::Open { name },
            WaitActionView::Probe,
            WaitActionView::Block,
        ] + end,
    }
}

/// What is done for the jobs from the one at `from` on.
pub open spec fn wait_for_all(
    targets: Seq<JobId>,
    fates: Seq<Fate>,
    clear: bool,
    from: nat,
) -> Seq<WaitActionView>
    decreases targets.len() - from,
{
    if from >= targets.len() {
        seq![]
    } else {
        wait_for_one(targets[from as int], fates[from as int], clear) + wait_for_all(
            targets,
            fates,
            clear,
            from + 1,
        )
    }
}

proof fn lemma_wait_from(w: WaitView, fates: Seq<Fate>)
    requires
        w.phase == WaitPhase::Open,
    ensures
        wait_performed(w, fates) == wait_for_all(w.targets, fates, w.clear, w.next),
    decreases w.targets.len() - w.next,
{
    if !wait_finished(w) {
        let id = w.targets[w.next as int];
        let fate = fates[w.next as int];
        let after = wait_next(w);
        lemma_wait_from(after, fates);
        let rest = wait_performed(after, fates);
        let probe = WaitView { phase: WaitPhase::Probe, ..w };
        let block = WaitView { phase: WaitPhase::Block, ..w };
        let clear = WaitView { phase: WaitPhase::Clear, ..w };
        assert(wait_performed(clear, fates) == seq![wait_action(clear)] + rest);
        let settled = wait_performed(wait_settled(w), fates);
        assert(settled =~= if w.clear {
            seq![wait_action(clear)] + rest
        } else {
            rest
        });
        assert(wait_settled(probe) == wait_settled(w));
        assert(wait_settled(block) == wait_settled(w));
        assert(wait_performed(block, fates) == seq![wait_action(block)] + settled);
        match fate {
            Fate::Gone | Fate::Moved => {
                assert(wait_performed(w, fates) =~= wait_for_one(id, fate, w.clear) + rest);
            },
            Fate::Idle => {
                assert(wait_performed(probe, fates) == seq![wait_action(probe)] + settled);
                assert(wait_performed(w, fates) =~= wait_for_one(id, fate, w.clear) + rest);
            },
            Fate::Running => {
                assert(wait_performed(probe, fates) == seq![wait_action(probe)] + wait_performed(
                    block,
                    fates,
                ));
                assert(wait_performed(w, fates) =~= wait_for_one(id, fate, w.clear) + rest);
            },
        }
    }
}

/// A wait comes to an end, and takes the jobs in their order: it is over for a job when its file
/// is not in the queue, when it is found done, or when its end has been waited for, and not before.
pub proof fn law_wait(targets: Seq<JobId>, fates: Seq<Fate>, clear: bool)
    requires
        fates.len() == targets.len(),
    ensures
        wait_performed(wait_start(targets, clear), fates) == wait_for_all(
            targets,
            fates,
            clear,
            0,
        ),
{
    lemma_wait_from(wait_start(targets, clear), fates);
}

/// What a [`TestRun`] has come to with the job at hand.
#[derive(Debug, Clone, Copy, PartialEq, Eq, Structural)]
pub enum TestPhase {
    /// Its file is to be opened.
    Open,
    /// It is not in the queue; it is to be found out whether it was moved.
    Find,
    /// A shared lock on the file is to be tried.
    Lock,
    /// The lock is to be released.
    Unlock,
    /// A job was found that is not done.
    NotDone,
}

/// The next thing to do in testing whether jobs are done.
#[derive(Debug)]
pub enum TestAction {
    /// Open the job file `name`; tell whether it could be opened.
    Open { name: String },
    /// Tell whether the job file `name` is in one of the directories that jobs are moved to when they
    /// have ended.
    Find { name: String },
    /// Try to get a shared lock on the file; tell whether that succeeded.
    TryLock,
    /// Release the lock.
    Unlock,
    /// Nothing: this is whether all jobs are done.
    Answer(bool),
}

/// A [`TestAction`] with its text.
pub enum TestActionView {
    Open { name: Seq<char> },
    Find { name: Seq<char> },
    TryLock,
    Unlock,
    Answer(bool),
}

impl View for TestAction {
    type V = TestActionView;

    open spec fn view(&self) -> TestActionView {
        match self {
            TestAction::Open { name } => TestActionView::Open { name: name@ },
            TestAction::Find { name } => TestActionView::Find { name: name@ },
            TestAction::TryLock => TestActionView::TryLock,
            TestAction::Unlock => TestActionView::Unlock,
            TestAction::Answer(all_done) => TestActionView::Answer(*all_done),
        }
    }
}

/// A test whether some jobs are done, in their order.
#[derive(Debug)]
pub struct TestRun {
    /// The jobs.
    pub targets: Vec<JobId>,
    /// How many of them were found done.
    pub next: usize,
    /// What has come of the next one.
    pub phase: TestPhase,
}

/// A [`TestRun`] with its jobs as a sequence.
pub struct TestView {
    pub targets: Seq<JobId>,
    pub next: nat,
    pub phase: TestPhase,
}

impl View for TestRun {
    type V = TestView;

    open spec fn view(&self) -> TestView {
        TestView { targets: self.targets@, next: self.next as nat, phase: self.phase }
    }
}

/// A test of `targets` that has not begun.
pub open spec fn test_start(targets: Seq<JobId>) -> TestView {
    TestView { targets, next: 0, phase: TestPhase::Open }
}

/// What is to be done next in a test.
pub open spec fn test_action(t: TestView) -> TestActionView {
    if t.phase == TestPhase::NotDone {
        TestActionView::Answer(false)
    } else if t.next >= t.targets.len() {
        TestActionView::Answer(true)
    } else {
        let name = job_name(',', t.targets[t.next as int]);
        match t.phase {
            TestPhase::Open => TestActionView::Open { name },
            TestPhase::Find => TestActionView::Find { name },
            TestPhase::Lock => TestActionView::TryLock,
            _ => TestActionView::Unlock,
        }
    }
}

/// A test that goes on with the next job.
pub open spec fn test_next(t: TestView) -> TestView {
    TestView { next: t.next + 1, phase: TestPhase::Open, ..t }
}

/// A test after its next action was done; `yes` is the answer, where the action asks for one. A
/// job whose file was moved is done. One whose file is nowhere, or cannot be locked, is not, and the
/// test is over.
pub open spec fn test_advanced(t: TestView, yes: bool) -> TestView {
    if test_action(t) is Answer {
        t
    } else {
        match t.phase {
            TestPhase::Open => TestView {
                phase: if yes {
                    TestPhase::Lock
                } else {
                    TestPhase::Find
                },
                ..t
            },
            TestPhase::Find => if yes {
                test_next(t)
            } else {
                TestView { phase: TestPhase::NotDone, ..t }
            },
            TestPhase::Lock => TestView {
                phase: if yes {
                    TestPhase::Unlock
                } else {
                    TestPhase::NotDone
                },
                ..t
            },
            _ => test_next(t),
        }
    }
}

impl TestRun {
    /// A test whether `targets` are done.
    pub fn new(targets: Vec<JobId>) -> (r: TestRun)
        ensures
            r@ == test_start(targets@),
            r.targets == targets,
            r.next == 0,
            r.phase == TestPhase::Open,
    {
        TestRun { targets, next: 0, phase: TestPhase::Open }
    }

    /// What is to be done next.
    pub fn action(&self) -> (r: TestAction)
        ensures
            r@ == test_action(self@),
            r matches TestAction::Open { name } ==> name@ == job_name(
                ',',
                self.targets@[self.next as int],
            ),
            r matches TestAction::Find { name } ==> name@ == job_name(
                ',',
                self.targets@[self.next as int],
            ),
            r matches TestAction::Answer(true) ==> self.next >= self.targets@.len(),
    {
        match self.phase {
            TestPhase::NotDone => {
                return TestAction::Answer(false);
            },
            _ => {},
        }
        if self.next >= self.targets.len() {
            return TestAction::Answer(true);
        }
        let id = self.targets[self.next];
        match self.phase {
            TestPhase::Open => TestAction::Open { name: id.filename() },
            TestPhase::Find => TestAction::Find { name: id.filename() },
            TestPhase::Lock => TestAction::TryLock,
            _ => TestAction::Unlock,
        }
    }

    /// Goes on after the action was done. `yes` says, of [`TestAction::Open`], whether the file
    /// could be opened, of [`TestAction::Find`] whether it was found, and of [`TestAction::TryLock`]
    /// whether it could be locked.
    pub fn advance(&mut self, yes: bool)
        ensures
            final(self)@ == test_advanced(old(self)@, yes),
            final(self).targets == old(self).targets,
            old(self).next <= final(self).next <= old(self).next + 1,
            final(self).next > old(self).next ==> {
                ||| old(self).phase == TestPhase::Find && yes
                ||| old(self).phase == TestPhase::Unlock
            },
    {
        if self.next >= self.targets.len() {
            return ;
        }
        match self.phase {
            TestPhase::NotDone => {},
            TestPhase::Open => {
                self.phase = if yes {
                    TestPhase::Lock
                } else {
                    TestPhase::Find
                };
            },
            TestPhase::Find => {
                if yes {
                    self.next = self.next + 1;
                    self.phase = TestPhase::Open;
                } else {
                    self.phase = TestPhase::NotDone;
                }
            },
            TestPhase::Lock => {
                self.phase = if yes {
                    TestPhase::Unlock
                } else {
                    TestPhase::NotDone
                };
            },
            TestPhase::Unlock => {
                self.next = self.next + 1;
                self.phase = TestPhase::Open;
            },
        }
    }
}

/// The answer to the next action of a test, where the jobs fare as `fates` say.
pub open spec fn test_reply(t: TestView, fates: Seq<Fate>) -> bool {
    match t.phase {
        TestPhase::Open => is_queued(fates[t.next as int]),
        TestPhase::Find => fates[t.next as int] is Moved,
        TestPhase::Lock => !(fates[t.next as int] is Running),
        _ => true,
    }
}

/// A number that every action of a test makes smaller.
pub open spec fn test_left(t: TestView) -> nat {
    if test_action(t) is Answer {
        0
    } else {
        let taken: int = match t.phase {
            TestPhase::Open => 0,
            TestPhase::Find | TestPhase::Lock => 1,
            _ => 2,
        };
        (3 * (t.targets.len() - t.next) - taken) as nat
    }
}

/// What a test says at its end, where the jobs fare as `fates` say.
pub open spec fn test_verdict(t: TestView, fates: Seq<Fate>) -> bool
    decreases test_left(t),
{
    match test_action(t) {
        TestActionView::Answer(all_done) => all_done,
        _ => test_verdict(test_advanced(t, test_reply(t, fates)), fates),
    }
}

/// Whether a job that fares so is done.
pub open spec fn is_done(fate: Fate) -> bool {
    fate is Idle || fate is Moved
}

proof fn lemma_test_from(t: TestView, fates: Seq<Fate>)
    requires
        t.phase == TestPhase::Open,
    ensures
        test_verdict(t, fates) <==> forall|i: int|
            t.next <= i < t.targets.len() ==> is_done(#[trigger] fates[i]),
    decreases t.targets.len() - t.next,
{
    if t.next < t.targets.len() {
        let fate = fates[t.next as int];
        let find = TestView { phase: TestPhase::Find, ..t };
        let lock = TestView { phase: TestPhase::Lock, ..t };
        let unlock = TestView { phase: TestPhase::Unlock, ..t };
        let missed = TestView { phase: TestPhase::NotDone, ..t };
        let after = test_next(t);
        lemma_test_from(after, fates);
        assert(!test_verdict(missed, fates));
        assert(test_verdict(unlock, fates) == test_verdict(after, fates));
        assert(test_verdict(find, fates) == test_verdict(test_advanced(
            find,
            test_reply(find, fates),
        ), fates));
        assert(test_verdict(lock, fates) == test_verdict(test_advanced(
            lock,
            test_reply(lock, fates),
        ), fates));
        assert(test_verdict(t, fates) == test_verdict(test_advanced(t, test_reply(t, fates)), fates));
        if is_done(fate) {
            assert(test_verdict(t, fates) == test_verdict(after, fates));
        }
    }
}

/// A test comes to an end, and says that all jobs are done exactly where each of them is in the queue
/// and not locked, or was moved when it had ended. Of no jobs that is true.
pub proof fn law_test(targets: Seq<JobId>, fates: Seq<Fate>)
    requires
        fates.len() == targets.len(),
    ensures
        test_verdict(test_start(targets), fates) <==> forall|i: int|
            0 <= i < targets.len() ==> is_done(#[trigger] fates[i]),
{
    lemma_test_from(test_start(targets), fates);
}

/// What a wait does, job by job: it opens the file of the first job by its name. If that is not in the
/// queue it goes on; else it asks whether the job is running, and if so waits for its end; then, where
/// that is asked for, it takes the leave to execute from the same file. What it does for the jobs
/// behind is what a wait for these alone does. For no jobs it does nothing.
pub proof fn law_wait_job_by_job(
    id: JobId,
    fate: Fate,
    targets: Seq<JobId>,
    fates: Seq<Fate>,
    clear: bool,
)
    requires
        fates.len() == targets.len(),
    ensures
        ({
            let all = wait_performed(wait_start(seq![id] + targets, clear), seq![fate] + fates);
            let rest = wait_performed(wait_start(targets, clear), fates);
            let name = job_name(',', id);
            let open = WaitActionView::Open { name };
            &&& !clear ==> all == match fate {
                Fate::Gone => seq![open],
                Fate::Moved => seq![open],
                Fate::Idle => seq![open, WaitActionView::Probe],
                Fate::Running => seq![open, WaitActionView::Probe, WaitActionView::Block],
            } + rest
            &&& clear ==> all == match fate {
                Fate::Gone => seq![open],
                Fate::Moved => seq![open],
                Fate::Idle => seq![open, WaitActionView::Probe, WaitActionView::Clear { name }],
                Fate::Running => seq![
                    open,
                    WaitActionView::Probe,
                    WaitActionView::Block,
                    WaitActionView::Clear { name },
                ],
            } + rest
        }),
        wait_performed(wait_start(Seq::<JobId>::empty(), clear), Seq::<Fate>::empty()) == Seq::<
            WaitActionView,
        >::empty(),
{
    let all = seq![id] + targets;
    let f = seq![fate] + fates;
    law_wait(all, f, clear);
    lemma_wait_shift(id, fate, wait_start(targets, clear), fates);
    let next = wait_next(wait_start(all, clear));
    lemma_wait_from(next, f);
    assert(all[0] == id);
    assert(f[0] == fate);
    let one = wait_for_one(id, fate, clear);
    let rest = wait_performed(wait_start(targets, clear), fates);
    assert(wait_performed(wait_start(all, clear), f) =~= one + rest);
    let name = job_name(',', id);
    assert(clear && fate is Idle ==> one =~= seq![
        WaitActionView::Open { name },
        WaitActionView::Probe,
        WaitActionView::Clear { name },
    ]);
    assert(clear && fate is Running ==> one =~= seq![
        WaitActionView::Open { name },
        WaitActionView::Probe,
        WaitActionView::Block,
        WaitActionView::Clear { name },
    ]);
    assert(!clear && fate is Idle ==> one =~= seq![
        WaitActionView::Open { name },
        WaitActionView::Probe,
    ]);
    assert(!clear && fate is Running ==> one =~= seq![
        WaitActionView::Open { name },
        WaitActionView::Probe,
        WaitActionView::Block,
    ]);
}

/// A wait with one job more, which is done with, goes on as without it.
proof fn lemma_wait_shift(id: JobId, fate: Fate, w: WaitView, fates: Seq<Fate>)
    requires
        fates.len() == w.targets.len(),
    ensures
        wait_performed(
            WaitView { targets: seq![id] + w.targets, next: w.next + 1, ..w },
            seq![fate] + fates,
        ) == wait_performed(w, fates),
    decreases wait_left(w),
{
    let more = WaitView { targets: seq![id] + w.targets, next: w.next + 1, ..w };
    let f = seq![fate] + fates;
    if !wait_finished(w) {
        assert(more.targets[more.next as int] == w.targets[w.next as int]);
        assert(f[more.next as int] == fates[w.next as int]);
        let next = wait_advanced(w, wait_answer(w, fates));
        lemma_wait_shift(id, fate, next, fates);
    }
}

/// All that a test does from `t` on, with its answer at the end, where the jobs fare as `fates` say.
pub open spec fn test_performed(t: TestView, fates: Seq<Fate>) -> Seq<TestActionView>
    decreases test_left(t),
{
    if test_action(t) is Answer {
        seq![test_action(t)]
    } else {
        seq![test_action(t)] + test_performed(test_advanced(t, test_reply(t, fates)), fates)
    }
}

/// What a test does, job by job: it opens the file of the first job by its name. If that is not in the
/// queue it looks for the same file among those that were moved; else it tries to lock it. A job that
/// is found done by either is followed by what a test of the jobs behind it alone does; another one
/// ends the test with the answer no. Of no jobs the answer is yes.
pub proof fn law_test_job_by_job(id: JobId, fate: Fate, targets: Seq<JobId>, fates: Seq<Fate>)
    requires
        fates.len() == targets.len(),
    ensures
        ({
            let all = test_performed(test_start(seq![id] + targets), seq![fate] + fates);
            let rest = test_performed(test_start(targets), fates);
            let name = job_name(',', id);
            let open = TestActionView::Open { name };
            all == match fate {
                Fate::Idle => seq![open, TestActionView::TryLock, TestActionView::Unlock] + rest,
                Fate::Moved => seq![open, TestActionView::Find { name }] + rest,
                Fate::Running => seq![
                    open,
                    TestActionView::TryLock,
                    TestActionView::Answer(false),
                ],
                Fate::Gone => seq![
                    open,
                    TestActionView::Find { name },
                    TestActionView::Answer(false),
                ],
            }
        }),
        test_performed(test_start(Seq::<JobId>::empty()), Seq::<Fate>::empty()) == seq![
            TestActionView::Answer(true),
        ],
{
    let all = seq![id] + targets;
    let f = seq![fate] + fates;
    let t = test_start(all);
    assert(all[0] == id);
    assert(f[0] == fate);
    let find = TestView { phase: TestPhase::Find, ..t };
    let lock = TestView { phase: TestPhase::Lock, ..t };
    let unlock = TestView { phase: TestPhase::Unlock, ..t };
    let missed = TestView { phase: TestPhase::NotDone, ..t };
    let after = test_next(t);
    lemma_test_shift(id, fate, test_start(targets), fates);
    let rest = test_performed(test_start(targets), fates);
    assert(test_performed(after, f) == rest);
    assert(test_performed(missed, f) == seq![TestActionView::Answer(false)]);
    assert(test_performed(unlock, f) == seq![TestActionView::Unlock] + rest);
    assert(test_performed(lock, f) == seq![TestActionView::TryLock] + test_performed(
        test_advanced(lock, test_reply(lock, f)),
        f,
    ));
    assert(test_performed(find, f) == seq![test_action(find)] + test_performed(
        test_advanced(find, test_reply(find, f)),
        f,
    ));
    assert(test_performed(t, f) == seq![test_action(t)] + test_performed(
        test_advanced(t, test_reply(t, f)),
        f,
    ));
    let name = job_name(',', id);
    let open = TestActionView::Open { name };
    match fate {
        Fate::Idle => {
            assert(test_performed(t, f) =~= seq![
                open,
                TestActionView::TryLock,
                TestActionView::Unlock,
            ] + rest);
        },
        Fate::Moved => {
            assert(test_performed(t, f) =~= seq![open, TestActionView::Find { name }] + rest);
        },
        Fate::Running => {
            assert(test_performed(t, f) =~= seq![
                open,
                TestActionView::TryLock,
                TestActionView::Answer(false),
            ]);
        },
        Fate::Gone => {
            assert(test_performed(t, f) =~= seq![
                open,
                TestActionView::Find { name },
                TestActionView::Answer(false),
            ]);
        },
    }
}

/// A test with one job more, which was found done, goes on as without it.
proof fn lemma_test_shift(id: JobId, fate: Fate, t: TestView, fates: Seq<Fate>)
    requires
        fates.len() == t.targets.len(),
    ensures
        test_performed(
            TestView { targets: seq![id] + t.targets, next: t.next + 1, ..t },
            seq![fate] + fates,
        ) == test_performed(t, fates),
    decreases test_left(t),
{
    let more = TestView { targets: seq![id] + t.targets, next: t.next + 1, ..t };
    let f = seq![fate] + fates;
    if !(test_action(t) is Answer) {
        assert(more.targets[more.next as int] == t.targets[t.next as int]);
        assert(f[more.next as int] == fates[t.next as int]);
        lemma_test_shift(id, fate, test_advanced(t, test_reply(t, fates)), fates);
    }
}

/// What a test says at its end is yes exactly where each job is in the queue and not locked, or was
/// moved; and that is the last of all that it does.
pub proof fn law_test_answer(targets: Seq<JobId>, fates: Seq<Fate>)
    requires
        fates.len() == targets.len(),
    ensures
        test_performed(test_start(targets), fates).last() == TestActionView::Answer(
            forall|i: int|
                0 <= i < targets.len() ==> #[trigger] fates[i] is Idle || fates[i] is Moved,
        ),
{
    law_test(targets, fates);
    lemma_test_ends(test_start(targets), fates);
    let all = forall|i: int| 0 <= i < targets.len() ==> #[trigger] fates[i] is Idle || fates[i] is Moved;
    if test_verdict(test_start(targets), fates) {
        assert forall|i: int| 0 <= i < targets.len() implies #[trigger] fates[i] is Idle
            || fates[i] is Moved by {
            assert(is_done(fates[i]));
        }
    }
    if all {
        assert forall|i: int| 0 <= i < targets.len() implies is_done(#[trigger] fates[i]) by {}
    }
}

proof fn lemma_test_ends(t: TestView, fates: Seq<Fate>)
    ensures
        test_performed(t, fates).len() > 0,
        test_performed(t, fates).last() == TestActionView::Answer(test_verdict(t, fates)),
    decreases test_left(t),
{
    if !(test_action(t) is Answer) {
        lemma_test_ends(test_advanced(t, test_reply(t, fates)), fates);
    }
}

/// A wait, a test, and what they do, are seen as they are.
pub proof fn law_wait_views(name: String, answer: bool, w: WaitRun, t: TestRun)
    ensures
        (WaitAction::Open { name })@ == (WaitActionView::Open { name: name@ }),
        WaitAction::Probe@ == WaitActionView::Probe,
        WaitAction::Block@ == WaitActionView::Block,
        (WaitAction::Clear { name })@ == (WaitActionView::Clear { name: name@ }),
        WaitAction::Finished@ == WaitActionView::Finished,
        (TestAction::Open { name })@ == (TestActionView::Open { name: name@ }),
        (TestAction::Find { name })@ == (TestActionView::Find { name: name@ }),
        TestAction::TryLock@ == TestActionView::TryLock,
        TestAction::Unlock@ == TestActionView::Unlock,
        TestAction::Answer(answer)@ == TestActionView::Answer(answer),
        w@.targets == w.targets@ && w@.next == w.next && w@.phase == w.phase && w@.clear == w.clear,
        t@.targets == t.targets@ && t@.next == t.next && t@.phase == t.phase,
{
}

/// How a wait goes on, by what it has come to with the job at hand and what it was told: on to the next
/// job where the file is not there, where the job is not running, and where its end has been waited
/// for, except that where this is asked for the leave to execute is taken first.
pub proof fn law_wait_steps(targets: Seq<JobId>, next: nat, clear: bool, yes: bool)
    requires
        next < targets.len(),
    ensures
        ({
            let at = |phase: WaitPhase| WaitView { targets, next, phase, clear };
            let on = WaitView { targets, next: next + 1, phase: WaitPhase::Open, clear };
            let settled = if clear {
                at(WaitPhase::Clear)
            } else {
                on
            };
            &&& wait_start(targets, clear) == (WaitView {
                targets,
                next: 0,
                phase: WaitPhase::Open,
                clear,
            })
            &&& wait_advanced(at(WaitPhase::Open), true) == at(WaitPhase::Probe)
            &&& wait_advanced(at(WaitPhase::Open), false) == on
            &&& wait_advanced(at(WaitPhase::Probe), true) == at(WaitPhase::Block)
            &&& wait_advanced(at(WaitPhase::Probe), false) == settled
            &&& wait_advanced(at(WaitPhase::Block), yes) == settled
            &&& wait_advanced(at(WaitPhase::Clear), yes) == on
            &&& !wait_finished(at(WaitPhase::Open))
            &&& next + 1 == targets.len() ==> wait_finished(on)
        }),
{
}

/// How a test goes on, by what it has come to with the job at hand and what it was told: on to the next
/// job where the file was moved, and where it could be locked and has been unlocked; to the answer no
/// where it is nowhere, and where it could not be locked.
pub proof fn law_test_steps(targets: Seq<JobId>, next: nat, yes: bool)
    requires
        next < targets.len(),
    ensures
        ({
            let at = |phase: TestPhase| TestView { targets, next, phase };
            let on = TestView { targets, next: next + 1, phase: TestPhase::Open };
            &&& test_start(targets) == (TestView { targets, next: 0, phase: TestPhase::Open })
            &&& test_advanced(at(TestPhase::Open), true) == at(TestPhase::Lock)
            &&& test_advanced(at(TestPhase::Open), false) == at(TestPhase::Find)
            &&& test_advanced(at(TestPhase::Find), true) == on
            &&& test_advanced(at(TestPhase::Find), false) == at(TestPhase::NotDone)
            &&& test_advanced(at(TestPhase::Lock), true) == at(TestPhase::Unlock)
            &&& test_advanced(at(TestPhase::Lock), false) == at(TestPhase::NotDone)
            &&& test_advanced(at(TestPhase::Unlock), yes) == on
            &&& test_action(at(TestPhase::NotDone)) == TestActionView::Answer(false)
            &&& next + 1 == targets.len() ==> test_action(on) == TestActionView::Answer(true)
        }),
{
}

} // verus!
