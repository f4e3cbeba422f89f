//! Following the output of a job: what `nqtail` does with one job file. Of a job that is running or
//! queued, what it prints from then on is shown; of one that is done, all that it printed.
use crate::line::exec_line_length;
use vstd::prelude::*;

verus! {

/// What has come of following a job.
#[derive(Debug, Clone, Copy, PartialEq, Eq, Structural)]
pub enum FollowRun {
    /// The job file is to be opened.
    Open,
    /// What is in it is to be passed over.
    SeekEnd,
    /// It is to be found out whether the job is running.
    Probe,
    /// The job was done before; its output is to be printed.
    PrintOutput,
    /// A watch is to be set on the file.
    Watch,
    /// A change of the file is to be waited for.
    Await,
    /// What is new is to be read.
    Read,
    /// As many bytes as were read are to be printed.
    Write(usize),
    /// It is to be found out whether the job is still running.
    Recheck,
    /// The job is done; what came meanwhile is to be printed.
    Drain,
    /// Nothing is left to do.
    Finished,
}

/// What became of the next action in following a job.
#[derive(Debug, Clone, Copy, PartialEq, Eq, Structural)]
pub enum FollowEvent {
    /// It was done.
    Done,
    /// Whether the job is running.
    Running(bool),
    /// How many bytes were read; none where there is nothing more at the moment.
    Bytes(usize),
}

/// What comes of following a job when its next action had the outcome `e`. An outcome that the
/// action cannot have changes nothing.
pub open spec fn follow_next(f: FollowRun, e: FollowEvent) -> FollowRun {
    match (f, e) {
        (FollowRun::Open, FollowEvent::Done) => FollowRun::SeekEnd,
        (FollowRun::SeekEnd, FollowEvent::Done) => FollowRun::Probe,
        (FollowRun::Probe, FollowEvent::Running(running)) => if running {
            FollowRun::Watch
        } else {
            FollowRun::PrintOutput
        },
        (FollowRun::PrintOutput, FollowEvent::Done) => FollowRun::Finished,
        (FollowRun::Watch, FollowEvent::Done) => FollowRun::Await,
        (FollowRun::Await, FollowEvent::Done) => FollowRun::Read,
        (FollowRun::Read, FollowEvent::Bytes(n)) => if n == 0 {
            FollowRun::Recheck
        } else {
            FollowRun::Write(n)
        },
        (FollowRun::Write(_), FollowEvent::Done) => FollowRun::Read,
        (FollowRun::Recheck, FollowEvent::Running(running)) => if running {
            FollowRun::Await
        } else {
            FollowRun::Drain
        },
        (FollowRun::Drain, FollowEvent::Done) => FollowRun::Finished,
        _ => f,
    }
}

impl FollowRun {
    /// The start of following a job.
    pub fn new() -> (r: FollowRun)
        ensures
            r == FollowRun::Open,
    {
        FollowRun::Open
    }

    /// What comes of following a job when its next action had the outcome `event`.
    pub fn step(self, event: FollowEvent) -> (r: FollowRun)
        ensures
            r == follow_next(self, event),
    {
        match (self, event) {
            (FollowRun::Open, FollowEvent::Done) => FollowRun::SeekEnd,
            (FollowRun::SeekEnd, FollowEvent::Done) => FollowRun::Probe,
            (FollowRun::Probe, FollowEvent::Running(running)) => {
                if running {
                    FollowRun::Watch
                } else {
                    FollowRun::PrintOutput
                }
            },
            (FollowRun::PrintOutput, FollowEvent::Done) => FollowRun::Finished,
            (FollowRun::Watch, FollowEvent::Done) => FollowRun::Await,
            (FollowRun::Await, FollowEvent::Done) => FollowRun::Read,
            (FollowRun::Read, FollowEvent::Bytes(n)) => {
                if n == 0 {
                    FollowRun::Recheck
                } else {
                    FollowRun::Write(n)
                }
            },
            (FollowRun::Write(_), FollowEvent::Done) => FollowRun::Read,
            (FollowRun::Recheck, FollowEvent::Running(running)) => {
                if running {
                    FollowRun::Await
                } else {
                    FollowRun::Drain
                }
            },
            (FollowRun::Drain, FollowEvent::Done) => FollowRun::Finished,
            (same, _) => same,
        }
    }
}

/// What has come of following a job after the outcomes `events`.
pub open spec fn follow_after(events: Seq<FollowEvent>) -> FollowRun
    decreases events.len(),
{
    if events.len() == 0 {
        FollowRun::Open
    } else {
        follow_next(follow_after(events.drop_last()), events.last())
    }
}

/// How many bytes were read in the outcomes `events`.
pub open spec fn bytes_read(events: Seq<FollowEvent>) -> nat
    decreases events.len(),
{
    if events.len() == 0 {
        0
    } else {
        let front = events.drop_last();
        match (follow_after(front), events.last()) {
            (FollowRun::Read, FollowEvent::Bytes(n)) => bytes_read(front) + n as nat,
            _ => bytes_read(front),
        }
    }
}

/// Where, in the file, what is read next starts, where following began at `from`.
pub open spec fn position(from: nat, events: Seq<FollowEvent>) -> nat {
    from + bytes_read(events)
}

/// What was read last from a file that comes to hold `content`, where following began at `from`. What
/// is written to a job file is put at its end, so what stands at a place in it stays.
pub open spec fn last_read(content: Seq<u8>, from: nat, events: Seq<FollowEvent>) -> Seq<u8>
    decreases events.len(),
{
    if events.len() == 0 {
        seq![]
    } else {
        let front = events.drop_last();
        match (follow_after(front), events.last()) {
            (FollowRun::Read, FollowEvent::Bytes(n)) => content.subrange(
                position(from, front) as int,
                position(from, front) + n,
            ),
            _ => last_read(content, from, front),
        }
    }
}

/// What was printed of a file that comes to hold `content`, where following began at `from`: what was
/// read; when the job is done, what is left behind that; of a job that was done before, its output.
pub open spec fn printed(content: Seq<u8>, from: nat, events: Seq<FollowEvent>) -> Seq<u8>
    decreases events.len(),
{
    if events.len() == 0 {
        seq![]
    } else {
        let front = events.drop_last();
        let earlier = printed(content, from, front);
        match (follow_after(front), events.last()) {
            (FollowRun::Write(n), FollowEvent::Done) => earlier + last_read(
                content,
                from,
                front,
            ).take(n as int),
            (FollowRun::Drain, FollowEvent::Done) => earlier + content.skip(
                position(from, front) as int,
            ),
            (FollowRun::PrintOutput, FollowEvent::Done) => earlier + content.skip(
                exec_line_length(content),
            ),
            _ => earlier,
        }
    }
}

/// Whether the job was found running when following it began.
pub open spec fn found_running(events: Seq<FollowEvent>) -> bool
    decreases events.len(),
{
    if events.len() == 0 {
        false
    } else {
        let front = events.drop_last();
        match (follow_after(front), events.last()) {
            (FollowRun::Probe, FollowEvent::Running(running)) => running,
            _ => found_running(front),
        }
    }
}

/// What was printed, and what is about to be, in the state that following has come to.
spec fn printed_ok(content: Seq<u8>, from: nat, events: Seq<FollowEvent>) -> bool {
    let at = position(from, events) as int;
    let shown = printed(content, from, events);
    match follow_after(events) {
        FollowRun::Open | FollowRun::SeekEnd | FollowRun::Probe => at == from && shown =~= seq![],
        FollowRun::PrintOutput => at == from && shown =~= seq![] && !found_running(events),
        FollowRun::Write(n) => {
            &&& found_running(events)
            &&& from <= at - n
            &&& last_read(content, from, events) == content.subrange(at - n, at)
            &&& shown == content.subrange(from as int, at - n)
        },
        FollowRun::Finished => shown == content.skip(
            if found_running(events) {
                from as int
            } else {
                exec_line_length(content)
            },
        ),
        _ => found_running(events) && shown == content.subrange(from as int, at),
    }
}

proof fn lemma_printed(content: Seq<u8>, from: nat, events: Seq<FollowEvent>)
    requires
        position(from, events) <= content.len(),
    ensures
        printed_ok(content, from, events),
    decreases events.len(),
{
    if events.len() > 0 {
        let front = events.drop_last();
        lemma_printed(content, from, front);
        let at = position(from, front) as int;
        match (follow_after(front), events.last()) {
            (FollowRun::Write(n), FollowEvent::Done) => {
                let data = content.subrange(at - n, at);
                assert(data.take(n as int) =~= data);
                assert(content.subrange(from as int, at - n) + data =~= content.subrange(
                    from as int,
                    at,
                ));
            },
            (FollowRun::Drain, FollowEvent::Done) => {
                assert(content.subrange(from as int, at) + content.skip(at) =~= content.skip(
                    from as int,
                ));
            },
            (FollowRun::PrintOutput, FollowEvent::Done) => {
                let output = content.skip(exec_line_length(content));
                assert(Seq::<u8>::empty() + output =~= output);
            },
            _ => {},
        }
        if follow_after(events) == FollowRun::Watch {
            assert(content.subrange(from as int, from as int) =~= seq![]);
        }
    }
}

/// What is printed is what the job prints, in order, each byte once. While a job is followed it is
/// all that was read from the place at which following began, but for what is about to be printed.
/// When following has ended it is all that the file holds from that place on; of a job that was done
/// before, all that it holds behind the exec line.
pub proof fn law_read_is_printed(content: Seq<u8>, from: nat, events: Seq<FollowEvent>)
    requires
        position(from, events) <= content.len(),
    ensures
        ({
            let shown = printed(content, from, events);
            let at = position(from, events) as int;
            match follow_after(events) {
                FollowRun::Finished => if found_running(events) {
                    shown == content.skip(from as int)
                } else {
                    shown == content.skip(exec_line_length(content))
                },
                FollowRun::Write(n) => {
                    &&& shown + last_read(content, from, events) == content.subrange(
                        from as int,
                        at,
                    )
                    &&& last_read(content, from, events).len() == n
                },
                _ => shown == content.subrange(from as int, at),
            }
        }),
{
    lemma_printed(content, from, events);
    let at = position(from, events) as int;
    if let FollowRun::Write(n) = follow_after(events) {
        assert(content.subrange(from as int, at - n) + content.subrange(at - n, at)
            =~= content.subrange(from as int, at));
    } else if at == from {
        assert(content.subrange(from as int, at) =~= seq![]);
    }
}

/// Whether, in the outcomes `events`, it was found at the index `i` that the job is not running,
/// and after that what was left to print was printed.
pub open spec fn ended_at(events: Seq<FollowEvent>, i: int) -> bool {
    &&& 0 <= i < events.len() - 1
    &&& events[i] == FollowEvent::Running(false)
    &&& {
        ||| follow_after(events.take(i)) == FollowRun::Probe
        ||| follow_after(events.take(i)) == FollowRun::Recheck
    }
    &&& exists|j: int|
        i < j < events.len() && {
            ||| follow_after(#[trigger] events.take(j)) == FollowRun::PrintOutput
            ||| follow_after(events.take(j)) == FollowRun::Drain
        }
}

/// Following a job ends only after the job was found not to be running, and never without a last
/// look at its file after that.
pub proof fn law_follow_ends(events: Seq<FollowEvent>)
    requires
        follow_after(events) == FollowRun::Finished,
    ensures
        exists|i: int| ended_at(events, i),
    decreases events.len(),
{
    let front = events.drop_last();
    let n = front.len() as int;
    assert(events.take(n) =~= front);
    if follow_after(front) == FollowRun::Finished {
        law_follow_ends(front);
        let i = choose|i: int| ended_at(front, i);
        let j = choose|j: int|
            i < j < front.len() && {
                ||| follow_after(#[trigger] front.take(j)) == FollowRun::PrintOutput
                ||| follow_after(front.take(j)) == FollowRun::Drain
            };
        assert(events.take(i) =~= front.take(i));
        assert(events.take(j) =~= front.take(j));
        assert(ended_at(events, i));
    } else {
        let i = lemma_look_after_end(front);
        assert(events.take(i) =~= front.take(i));
        assert(follow_after(events.take(n)) == follow_after(front));
        assert(ended_at(events, i));
    }
}

/// The last look at a file comes after it was found that the job is not running.
proof fn lemma_look_after_end(events: Seq<FollowEvent>) -> (i: int)
    requires
        follow_after(events) == FollowRun::PrintOutput || follow_after(events) == FollowRun::Drain,
    ensures
        0 <= i < events.len(),
        events[i] == FollowEvent::Running(false),
        follow_after(events.take(i)) == FollowRun::Probe || follow_after(events.take(i))
            == FollowRun::Recheck,
    decreases events.len(),
{
    let front = events.drop_last();
    let n = front.len() as int;
    assert(events.take(n) =~= front);
    if follow_after(front) == follow_after(events) {
        let i = lemma_look_after_end(front);
        assert(events.take(i) =~= front.take(i));
        i
    } else {
        n
    }
}

/// How following a job goes on, whatever came before: the file is opened and what is in it passed over,
/// and then it is asked whether the job is running. If it is not, its output is printed, and that is
/// all. If it is, a change is waited for, and what is new is read and printed as long as there is any;
/// then it is asked again whether the job is running. If it is, the next change is waited for; if not,
/// what is left is printed, and that is all.
pub proof fn law_follow_goes_on(events: Seq<FollowEvent>, n: usize)
    ensures
        follow_after(Seq::<FollowEvent>::empty()) == FollowRun::Open,
        ({
            let now = follow_after(events);
            let done = events.push(FollowEvent::Done);
            let yes = events.push(FollowEvent::Running(true));
            let no = events.push(FollowEvent::Running(false));
            let read = events.push(FollowEvent::Bytes(n));
            &&& now == FollowRun::Open ==> follow_after(done) == FollowRun::SeekEnd
            &&& now == FollowRun::SeekEnd ==> follow_after(done) == FollowRun::Probe
            &&& now == FollowRun::Probe ==> follow_after(yes) == FollowRun::Watch && follow_after(no)
                == FollowRun::PrintOutput
            &&& now == FollowRun::PrintOutput ==> follow_after(done) == FollowRun::Finished
            &&& now == FollowRun::Watch ==> follow_after(done) == FollowRun::Await
            &&& now == FollowRun::Await ==> follow_after(done) == FollowRun::Read
            &&& now == FollowRun::Read && n > 0 ==> follow_after(read) == FollowRun::Write(n)
            &&& now == FollowRun::Read && n == 0 ==> follow_after(read) == FollowRun::Recheck
            &&& now == FollowRun::Write(n) ==> follow_after(done) == FollowRun::Read
            &&& now == FollowRun::Recheck ==> follow_after(yes) == FollowRun::Await && follow_after(
                no,
            ) == FollowRun::Drain
            &&& now == FollowRun::Drain ==> follow_after(done) == FollowRun::Finished
        }),
{
    assert(events.push(FollowEvent::Done).drop_last() =~= events);
    assert(events.push(FollowEvent::Running(true)).drop_last() =~= events);
    assert(events.push(FollowEvent::Running(false)).drop_last() =~= events);
    assert(events.push(FollowEvent::Bytes(n)).drop_last() =~= events);
}

/// Following goes on only when an action had an outcome of the kind that it asks for, and never when it
/// has ended.
pub proof fn law_follow_heeds_outcomes(f: FollowRun, e: FollowEvent)
    requires
        follow_next(f, e) != f,
    ensures
        match f {
            FollowRun::Probe => e is Running,
            FollowRun::Recheck => e is Running,
            FollowRun::Read => e is Bytes,
            FollowRun::Finished => false,
            _ => e is Done,
        },
{
}

} // verus!
