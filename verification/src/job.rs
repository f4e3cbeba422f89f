//! Job IDs. A job is named `,TIMESTAMP.PID`: milliseconds since the Unix epoch in hexadecimal,
//! and the ID of the process that queued it in decimal. While its file is being made the name
//! starts with a dot in place of the comma.
use crate::numeral::{
    law_numeral_is_positional, law_padded_numeral_is_positional,
    lemma_read_padded_numeral, numeral, parse_number, push_numeral, read_number, writes,
    zero_padded,
};
use crate::text::{find, find_char, lemma_find, lemma_find_unique, to_chars};
use std::cmp::Ordering;
use vstd::prelude::*;
use vstd::std_specs::cmp::PartialOrdSpec;

verus! {

/// The least number of hexadecimal digits in a job's name.
pub const TIMESTAMP_WIDTH: usize = 11;

/// The identifier of a job. IDs are ordered by time, then by process ID.
#[derive(Debug, Clone, Copy, PartialEq, Eq, Ord, Hash, Structural)]
pub struct JobId {
    /// Milliseconds since the Unix epoch.
    pub timestamp_ms: u64,
    /// The process that created the job.
    pub pid: u32,
}

/// Whether `a` comes before `b` in the queue.
pub open spec fn before(a: JobId, b: JobId) -> bool {
    a.timestamp_ms < b.timestamp_ms || (a.timestamp_ms == b.timestamp_ms && a.pid < b.pid)
}

impl PartialOrd for JobId {
    fn partial_cmp(&self, other: &JobId) -> (r: Option<Ordering>)
        ensures
            self.timestamp_ms < other.timestamp_ms ==> r == Some(Ordering::Less),
            self.timestamp_ms > other.timestamp_ms ==> r == Some(Ordering::Greater),
            self.timestamp_ms == other.timestamp_ms && self.pid < other.pid ==> r == Some(
                Ordering::Less,
            ),
            self.timestamp_ms == other.timestamp_ms && self.pid > other.pid ==> r == Some(
                Ordering::Greater,
            ),
            self.timestamp_ms == other.timestamp_ms && self.pid == other.pid ==> r == Some(
                Ordering::Equal,
            ),
    {
        if self.timestamp_ms < other.timestamp_ms {
            Some(Ordering::Less)
        } else if self.timestamp_ms > other.timestamp_ms {
            Some(Ordering::Greater)
        } else if self.pid < other.pid {
            Some(Ordering::Less)
        } else if self.pid > other.pid {
            Some(Ordering::Greater)
        } else {
            Some(Ordering::Equal)
        }
    }
}

impl vstd::std_specs::cmp::PartialOrdSpecImpl for JobId {
    open spec fn obeys_partial_cmp_spec() -> bool {
        true
    }

    open spec fn partial_cmp_spec(&self, other: &JobId) -> Option<Ordering> {
        if before(*self, *other) {
            Some(Ordering::Less)
        } else if before(*other, *self) {
            Some(Ordering::Greater)
        } else {
            Some(Ordering::Equal)
        }
    }
}

/// The name of the job `id` behind the character `lead`.
pub open spec fn job_name(lead: char, id: JobId) -> Seq<char> {
    seq![lead] + zero_padded(numeral(id.timestamp_ms as nat, 16), TIMESTAMP_WIDTH as nat)
        + seq!['.'] + numeral(id.pid as nat, 10)
}

/// The job that the text after a name's lead character stands for: a hexadecimal number, the
/// first dot, a decimal number.
pub open spec fn read_stem(stem: Seq<char>) -> Option<JobId> {
    let dot = find(stem, '.');
    if dot < stem.len() {
        match (
            read_number(stem.take(dot), 16, u64::MAX as nat),
            read_number(stem.skip(dot + 1), 10, u32::MAX as nat),
        ) {
            (Some(t), Some(p)) => Some(JobId { timestamp_ms: t as u64, pid: p as u32 }),
            _ => None,
        }
    } else {
        None
    }
}

/// The job that a file name stands for, whether it starts with a comma or a dot.
pub open spec fn read_name(name: Seq<char>) -> Option<JobId> {
    if name.len() > 0 && (name[0] == ',' || name[0] == '.') {
        read_stem(name.drop_first())
    } else {
        None
    }
}

impl JobId {
    /// The ID of a job queued `now_ms` milliseconds after the Unix epoch by the process `pid`.
    /// Of the time its low 64 bits are kept.
    pub fn new(now_ms: u128, pid: u32) -> (r: JobId)
        ensures
            r.timestamp_ms as int == now_ms as int % 0x1_0000_0000_0000_0000,
            r.pid == pid,
    {
        let timestamp_ms: u64 = (now_ms % 0x1_0000_0000_0000_0000) as u64;
        JobId { timestamp_ms, pid }
    }

    /// The job that a file name stands for: `,TIMESTAMP.PID`, or `.TIMESTAMP.PID` as it is while
    /// the file is being made. Each number may have a plus sign in front, and the hexadecimal
    /// one letters of either case.
    pub fn from_filename(s: &str) -> (r: Option<JobId>)
        ensures
            r == read_name(s@),
    {
        let chars = to_chars(s);
        if chars.len() == 0 || (chars[0] != ',' && chars[0] != '.') {
            return None;
        }
        let mut stem: Vec<char> = Vec::new();
        let mut i: usize = 1;
        while i < chars.len()
            invariant
                1 <= i <= chars@.len(),
                stem@ == chars@.subrange(1, i as int),
            decreases chars@.len() - i,
        {
            stem.push(chars[i]);
            i = i + 1;
        }
        assert(stem@ =~= s@.drop_first());
        let dot = find_char(&stem, '.');
        proof {
            lemma_find(stem@, '.');
        }
        if dot == stem.len() {
            return None;
        }
        let end: usize = stem.len();
        assert(stem@.subrange(0, dot as int) =~= stem@.take(dot as int));
        assert(stem@.subrange(dot + 1, end as int) =~= stem@.skip(dot + 1));
        match (
            parse_number(&stem, 0, dot, 16, u64::MAX),
            parse_number(&stem, dot + 1, end, 10, u32::MAX as u64),
        ) {
            (Some(t), Some(p)) => Some(JobId { timestamp_ms: t, pid: p as u32 }),
            _ => None,
        }
    }

    /// The name of the job's file: `,TIMESTAMP.PID`, the timestamp at least eleven digits long.
    pub fn filename(&self) -> (r: String)
        ensures
            r@ == job_name(',', *self),
    {
        self.name_behind(',')
    }

    /// The name of the job's file before it is locked and renamed: `.TIMESTAMP.PID`.
    pub fn temp_filename(&self) -> (r: String)
        ensures
            r@ == job_name('.', *self),
    {
        self.name_behind('.')
    }

    /// The ID as it is shown to a user, which is the name of the job's file.
    pub fn to_string(&self) -> (r: String)
        ensures
            r@ == job_name(',', *self),
    {
        self.filename()
    }

    fn name_behind(&self, lead: char) -> (r: String)
        ensures
            r@ == job_name(lead, *self),
    {
        let mut digits = String::new();
        push_numeral(&mut digits, self.timestamp_ms, 16);
        let hex = to_chars(digits.as_str());
        let ghost written = numeral(self.timestamp_ms as nat, 16);
        assert(hex@ =~= written);
        let mut out = String::new();
        out.push(lead);
        let mut n: usize = hex.len();
        while n < TIMESTAMP_WIDTH
            invariant
                hex@.len() <= n,
                hex@.len() < TIMESTAMP_WIDTH ==> n <= TIMESTAMP_WIDTH,
                hex@.len() >= TIMESTAMP_WIDTH ==> n == hex@.len(),
                out@ == seq![lead] + Seq::new((n - hex@.len()) as nat, |i: int| '0'),
            decreases TIMESTAMP_WIDTH - n,
        {
            out.push('0');
            n = n + 1;
        }
        push_numeral(&mut out, self.timestamp_ms, 16);
        assert(out@ =~= seq![lead] + zero_padded(written, TIMESTAMP_WIDTH as nat));
        out.push('.');
        push_numeral(&mut out, self.pid as u64, 10);
        assert(out@ =~= job_name(lead, *self));
        out
    }
}

/// What the two name functions write, `from_filename` reads back: every job is found again under
/// the name of its file and under that of its temporary file.
pub proof fn law_name_round_trip(id: JobId)
    ensures
        read_name(job_name(',', id)) == Some(id),
        read_name(job_name('.', id)) == Some(id),
{
    lemma_stem_round_trip(',', id);
    lemma_stem_round_trip('.', id);
}

proof fn lemma_stem_round_trip(lead: char, id: JobId)
    ensures
        read_stem(job_name(lead, id).drop_first()) == Some(id),
{
    let hex = zero_padded(numeral(id.timestamp_ms as nat, 16), TIMESTAMP_WIDTH as nat);
    let dec = numeral(id.pid as nat, 10);
    let stem = job_name(lead, id).drop_first();
    assert(stem =~= hex + seq!['.'] + dec);
    lemma_read_padded_numeral(id.timestamp_ms as nat, 16, TIMESTAMP_WIDTH as nat, u64::MAX as nat);
    lemma_read_padded_numeral(id.pid as nat, 10, 0, u32::MAX as nat);
    let dot = hex.len() as int;
    assert forall|i: int| 0 <= i < dot implies stem[i] != '.' by {
        assert(stem[i] == hex[i]);
        assert(hex.contains(hex[i]));
    }
    lemma_find_unique(stem, '.', dot);
    assert(stem.take(dot) =~= hex);
    assert(stem.skip(dot + 1) =~= dec);
}

/// No two jobs share a file name.
pub proof fn law_names_distinct(a: JobId, b: JobId)
    requires
        a != b,
    ensures
        job_name(',', a) != job_name(',', b),
        job_name('.', a) != job_name('.', b),
{
    law_name_round_trip(a);
    law_name_round_trip(b);
}

/// A job's file and its temporary file never have the same name, whatever the two jobs.
pub proof fn law_temp_names_apart(a: JobId, b: JobId)
    ensures
        job_name(',', a) != job_name('.', b),
{
    assert(job_name(',', a)[0] == ',');
    assert(job_name('.', b)[0] == '.');
}

/// Jobs are ordered in the queue by time, and those of one millisecond by process.
pub proof fn law_order_of_jobs(a: JobId, b: JobId)
    ensures
        a.timestamp_ms < b.timestamp_ms ==> before(a, b) && !before(b, a),
        a.timestamp_ms == b.timestamp_ms ==> (before(a, b) <==> a.pid < b.pid),
{
}

/// Two IDs are compared by time, and those of one millisecond by process; only an ID and itself are
/// equal.
pub proof fn law_comparison_of_jobs(a: JobId, b: JobId)
    ensures
        a.timestamp_ms < b.timestamp_ms ==> PartialOrdSpec::partial_cmp_spec(&a, &b) == Some(
            Ordering::Less,
        ) && PartialOrdSpec::partial_cmp_spec(&b, &a) == Some(Ordering::Greater),
        a.timestamp_ms == b.timestamp_ms && a.pid < b.pid ==> PartialOrdSpec::partial_cmp_spec(
            &a,
            &b,
        ) == Some(Ordering::Less) && PartialOrdSpec::partial_cmp_spec(&b, &a) == Some(
            Ordering::Greater,
        ),
        a == b <==> PartialOrdSpec::partial_cmp_spec(&a, &b) == Some(Ordering::Equal),
{
}

/// A job's name is its lead character, the milliseconds in hexadecimal with eleven digits at least, a
/// dot, and the process in decimal: each digit stated by its place.
pub proof fn law_name_format(lead: char, id: JobId)
    ensures
        exists|time: Seq<char>, process: Seq<char>|
            #![trigger writes(time, id.timestamp_ms as nat, 16, 11), writes(
                process,
                id.pid as nat,
                10,
                1,
            )]
            {
                &&& writes(time, id.timestamp_ms as nat, 16, 11)
                &&& writes(process, id.pid as nat, 10, 1)
                &&& job_name(lead, id) == seq![lead] + time + seq!['.'] + process
            },
{
    let time = zero_padded(numeral(id.timestamp_ms as nat, 16), 11);
    let process = numeral(id.pid as nat, 10);
    law_padded_numeral_is_positional(id.timestamp_ms as nat, 16, 11);
    law_padded_numeral_is_positional(id.pid as nat, 10, 1);
    law_numeral_is_positional(id.pid as nat, 10);
    assert(zero_padded(process, 1) == process);
    assert(writes(time, id.timestamp_ms as nat, 16, 11));
    assert(writes(process, id.pid as nat, 10, 1));
    assert(job_name(lead, id) =~= seq![lead] + time + seq!['.'] + process);
}

/// A name stands for a job exactly where it is a comma or a dot, a hexadecimal number, a dot, and a
/// decimal number, each in range; the job is the one with these two numbers.
pub proof fn law_name_is_read(name: Seq<char>, id: JobId)
    ensures
        read_name(name) == Some(id) <==> exists|time: Seq<char>, process: Seq<char>|
            #![trigger read_number(time, 16, u64::MAX as nat), read_number(
                process,
                10,
                u32::MAX as nat,
            )]
            {
                &&& name == seq![','] + time + seq!['.'] + process || name == seq!['.'] + time + seq![
                    '.',
                ] + process
                &&& !time.contains('.')
                &&& read_number(time, 16, u64::MAX as nat) == Some(id.timestamp_ms as nat)
                &&& read_number(process, 10, u32::MAX as nat) == Some(id.pid as nat)
            },
{
    let stem = name.drop_first();
    let dot = find(stem, '.');
    lemma_find(stem, '.');
    if read_name(name) == Some(id) {
        let time = stem.take(dot);
        let process = stem.skip(dot + 1);
        assert(!time.contains('.')) by {
            if time.contains('.') {
                let k = choose|k: int| 0 <= k < time.len() && time[k] == '.';
                assert(stem[k] == '.');
            }
        }
        assert(name =~= seq![name[0]] + time + seq!['.'] + process);
        assert(read_number(time, 16, u64::MAX as nat) == Some(id.timestamp_ms as nat));
        assert(read_number(process, 10, u32::MAX as nat) == Some(id.pid as nat));
    }
    assert forall|time: Seq<char>, process: Seq<char>|
        #![trigger read_number(time, 16, u64::MAX as nat), read_number(process, 10, u32::MAX as nat)]
        {
            &&& name == seq![','] + time + seq!['.'] + process || name == seq!['.'] + time + seq!['.']
                + process
            &&& !time.contains('.')
            &&& read_number(time, 16, u64::MAX as nat) == Some(id.timestamp_ms as nat)
            &&& read_number(process, 10, u32::MAX as nat) == Some(id.pid as nat)
        } implies read_name(name) == Some(id) by {
        assert(stem =~= time + seq!['.'] + process);
        let k = time.len() as int;
        assert forall|i: int| 0 <= i < k implies stem[i] != '.' by {
            assert(stem[i] == time[i]);
            assert(time.contains(time[i]));
        }
        lemma_find_unique(stem, '.', k);
        assert(stem.take(k) =~= time);
        assert(stem.skip(k + 1) =~= process);
    }
}

/// A job's name is made of two numerals: behind the lead character the milliseconds in hexadecimal, with
/// zeros in front up to eleven digits; behind the dot the process in decimal.
pub proof fn law_name_is_two_numerals(lead: char, id: JobId)
    ensures
        job_name(lead, id) == seq![lead] + zero_padded(numeral(id.timestamp_ms as nat, 16), 11) + seq![
            '.',
        ] + numeral(id.pid as nat, 10),
{
}

} // verus!
