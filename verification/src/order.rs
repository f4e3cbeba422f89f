//! The order of job names. Names are compared character by character, as a directory listing
//! sorts them; IDs are compared by time and process ID. The laws here say where the two agree.
use crate::job::{before, job_name, JobId, TIMESTAMP_WIDTH};
use crate::numeral::{
    digit_char, digit_value, lemma_digit, lemma_numeral, lemma_zero_padded, numeral, value,
    zero_padded,
};
use vstd::prelude::*;

verus! {

/// Whether `a` sorts before `b` when they are compared character by character.
pub open spec fn name_before(a: Seq<char>, b: Seq<char>) -> bool
    decreases a.len(),
{
    if b.len() == 0 {
        false
    } else if a.len() == 0 {
        true
    } else if a[0] == b[0] {
        name_before(a.drop_first(), b.drop_first())
    } else {
        a[0] < b[0]
    }
}

/// The digits that a job's name has for its time.
pub open spec fn time_digits(id: JobId) -> Seq<char> {
    zero_padded(numeral(id.timestamp_ms as nat, 16), TIMESTAMP_WIDTH as nat)
}

/// The digits that a job's name has for its process.
pub open spec fn pid_digits(id: JobId) -> Seq<char> {
    numeral(id.pid as nat, 10)
}

/// Whether `a` is no longer than `b` and stands for no more than as many of the leading digits
/// of `b`.
pub open spec fn in_step(a: Seq<char>, b: Seq<char>, base: nat) -> bool {
    a.len() <= b.len() && value(a, base) <= value(b.take(a.len() as int), base)
}

/// Whether `c` is a digit of `base` as `digit_char` writes it.
spec fn canonical_digit(c: char, base: nat) -> bool {
    exists|d: nat| d < base && c == #[trigger] digit_char(d)
}

/// Whether `s` is made of such digits.
spec fn canonical(s: Seq<char>, base: nat) -> bool {
    forall|i: int| 0 <= i < s.len() ==> canonical_digit(#[trigger] s[i], base)
}

proof fn lemma_common_prefix(p: Seq<char>, a: Seq<char>, b: Seq<char>)
    ensures
        name_before(p + a, p + b) == name_before(a, b),
    decreases p.len(),
{
    if p.len() == 0 {
        assert(p + a =~= a);
        assert(p + b =~= b);
    } else {
        lemma_common_prefix(p.drop_first(), a, b);
        assert((p + a).drop_first() =~= p.drop_first() + a);
        assert((p + b).drop_first() =~= p.drop_first() + b);
    }
}

proof fn lemma_digit_order(c: nat, d: nat, base: nat)
    requires
        c < d < base <= 16,
    ensures
        digit_char(c) < digit_char(d),
{
}

proof fn lemma_canonical_char(s: Seq<char>, base: nat, i: int) -> (d: nat)
    requires
        0 <= i < s.len(),
        canonical(s, base),
        base <= 16,
    ensures
        d < base,
        s[i] == digit_char(d),
        digit_value(s[i], base) == Some(d),
{
    let d = choose|d: nat| d < base && s[i] == #[trigger] digit_char(d);
    lemma_digit(d, base);
    d
}

/// Of two digit sequences of one length, the one of the smaller value sorts first, whatever
/// follows them; two of the same value are the same.
proof fn lemma_same_length(s: Seq<char>, t: Seq<char>, base: nat, u: Seq<char>, v: Seq<char>)
    requires
        2 <= base <= 16,
        s.len() == t.len(),
        canonical(s, base),
        canonical(t, base),
    ensures
        value(s, base) < value(t, base) ==> name_before(s + u, t + v),
        value(s, base) == value(t, base) ==> s == t,
    decreases s.len(),
{
    if s.len() == 0 {
        assert(s =~= t);
    } else {
        let n = s.len() - 1;
        let c = lemma_canonical_char(s, base, n);
        let d = lemma_canonical_char(t, base, n);
        let s0 = s.drop_last();
        let t0 = t.drop_last();
        assert(canonical(s0, base));
        assert(canonical(t0, base));
        let u1 = seq![s.last()] + u;
        let v1 = seq![t.last()] + v;
        lemma_same_length(s0, t0, base, u1, v1);
        assert(s + u =~= s0 + u1);
        assert(t + v =~= t0 + v1);
        let x = value(s0, base);
        let y = value(t0, base);
        assert(value(s, base) == x * base + c);
        assert(value(t, base) == y * base + d);
        assert(x < y ==> x * base + c < y * base + d) by (nonlinear_arith)
            requires
                c < base,
        ;
        assert(y < x ==> y * base + d < x * base + c) by (nonlinear_arith)
            requires
                d < base,
        ;
        if x == y {
            lemma_common_prefix(s0, u1, v1);
            if c < d {
                lemma_digit_order(c, d, base);
            }
            if c == d {
                assert(s =~= s0.push(s.last()));
                assert(t =~= t0.push(t.last()));
            }
        }
    }
}

proof fn lemma_numeral_canonical(n: nat, base: nat)
    requires
        2 <= base <= 16,
    ensures
        canonical(numeral(n, base), base),
    decreases n,
{
    let s = numeral(n, base);
    if n < base {
        assert(s[0] == digit_char(n));
    } else {
        vstd::arithmetic::div_mod::lemma_div_decreases(n as int, base as int);
        lemma_numeral_canonical(n / base, base);
        let high = numeral(n / base, base);
        vstd::arithmetic::div_mod::lemma_mod_bound(n as int, base as int);
        assert forall|i: int| 0 <= i < s.len() implies canonical_digit(#[trigger] s[i], base) by {
            if i < high.len() {
                assert(s[i] == high[i]);
            } else {
                assert(s[i] == digit_char(n % base));
            }
        }
    }
}

proof fn lemma_padded_canonical(s: Seq<char>, width: nat, base: nat)
    requires
        2 <= base <= 16,
        canonical(s, base),
    ensures
        canonical(zero_padded(s, width), base),
{
    let t = zero_padded(s, width);
    let gap = t.len() - s.len();
    assert forall|i: int| 0 <= i < t.len() implies canonical_digit(#[trigger] t[i], base) by {
        if i < gap {
            assert(t[i] == digit_char(0));
        } else {
            assert(t[i] == s[i - gap]);
        }
    }
}

/// Digits that are in step sort as their values do where these differ. Where the shorter is a
/// prefix of the longer it sorts first, if what follows it sorts before every digit.
proof fn lemma_in_step(s: Seq<char>, t: Seq<char>, base: nat, u: Seq<char>, v: Seq<char>)
    requires
        2 <= base <= 16,
        canonical(s, base),
        canonical(t, base),
        in_step(s, t, base),
        s != t,
        u.len() == 0 || u[0] < '0',
    ensures
        name_before(s + u, t + v),
{
    let k = s.len() as int;
    let head = t.take(k);
    let tail = t.skip(k) + v;
    assert(canonical(head, base));
    lemma_same_length(s, head, base, u, tail);
    assert(t + v =~= head + tail);
    if value(s, base) == value(head, base) {
        lemma_common_prefix(s, u, tail);
        if k == t.len() {
            assert(head =~= t);
        }
        assert(tail[0] == t[k]);
        let d = lemma_canonical_char(t, base, k);
        assert(digit_char(d) >= '0');
    }
}

/// Of two jobs the earlier has the name that sorts first, wherever the digits of the two times,
/// and for one time those of the two process IDs, are in step. They are not when a number of more
/// digits starts with smaller ones: the process IDs 9 and 10 in one millisecond.
pub proof fn law_names_sort_as_jobs(a: JobId, b: JobId)
    requires
        before(a, b),
        in_step(time_digits(a), time_digits(b), 16),
        a.timestamp_ms == b.timestamp_ms ==> in_step(pid_digits(a), pid_digits(b), 10),
    ensures
        name_before(job_name(',', a), job_name(',', b)),
{
    let ta = time_digits(a);
    let tb = time_digits(b);
    let pa = pid_digits(a);
    let pb = pid_digits(b);
    lemma_numeral_canonical(a.timestamp_ms as nat, 16);
    lemma_numeral_canonical(b.timestamp_ms as nat, 16);
    lemma_numeral_canonical(a.pid as nat, 10);
    lemma_numeral_canonical(b.pid as nat, 10);
    lemma_padded_canonical(numeral(a.timestamp_ms as nat, 16), TIMESTAMP_WIDTH as nat, 16);
    lemma_padded_canonical(numeral(b.timestamp_ms as nat, 16), TIMESTAMP_WIDTH as nat, 16);
    lemma_values(a);
    lemma_values(b);
    let comma = seq![','];
    let ra = seq!['.'] + pa;
    let rb = seq!['.'] + pb;
    assert(job_name(',', a) =~= comma + (ta + ra));
    assert(job_name(',', b) =~= comma + (tb + rb));
    lemma_common_prefix(comma, ta + ra, tb + rb);
    if a.timestamp_ms < b.timestamp_ms {
        lemma_in_step(ta, tb, 16, ra, rb);
    } else {
        let none = Seq::<char>::empty();
        lemma_in_step(pa, pb, 10, none, none);
        assert(pa + none =~= pa);
        assert(pb + none =~= pb);
        lemma_common_prefix(ta, ra, rb);
        lemma_common_prefix(seq!['.'], pa, pb);
    }
}

proof fn lemma_values(id: JobId)
    ensures
        value(time_digits(id), 16) == id.timestamp_ms,
        value(pid_digits(id), 10) == id.pid,
{
    lemma_numeral(id.timestamp_ms as nat, 16);
    lemma_numeral(id.pid as nat, 10);
    lemma_zero_padded(numeral(id.timestamp_ms as nat, 16), TIMESTAMP_WIDTH as nat, 16);
}

spec fn power(base: nat, k: nat) -> nat
    decreases k,
{
    if k == 0 {
        1
    } else {
        base * power(base, (k - 1) as nat)
    }
}

proof fn lemma_numeral_length(n: nat, base: nat, k: nat)
    requires
        2 <= base <= 16,
        1 <= k,
        n < power(base, k),
    ensures
        numeral(n, base).len() <= k,
    decreases k,
{
    if n >= base {
        let m = power(base, (k - 1) as nat);
        assert(k > 1) by {
            if k == 1 {
                assert(power(base, 0) == 1);
                assert(base * 1 == base) by (nonlinear_arith);
            }
        }
        assert(n / base < m) by (nonlinear_arith)
            requires
                n < base * m,
                base > 0,
        ;
        lemma_numeral_length(n / base, base, (k - 1) as nat);
    }
}

/// Names sort by time: up to the year 2527, when a twelfth digit comes, the job queued in an
/// earlier millisecond has the name that sorts first.
pub proof fn law_names_sort_by_time(a: JobId, b: JobId)
    requires
        a.timestamp_ms < b.timestamp_ms < 0x1000_0000_0000,
    ensures
        name_before(job_name(',', a), job_name(',', b)),
{
    assert(power(16, 11) == 0x1000_0000_0000) by {
        reveal_with_fuel(power, 12);
    }
    lemma_numeral_length(a.timestamp_ms as nat, 16, 11);
    lemma_numeral_length(b.timestamp_ms as nat, 16, 11);
    lemma_numeral(a.timestamp_ms as nat, 16);
    lemma_numeral(b.timestamp_ms as nat, 16);
    lemma_zero_padded(numeral(a.timestamp_ms as nat, 16), TIMESTAMP_WIDTH as nat, 16);
    lemma_zero_padded(numeral(b.timestamp_ms as nat, 16), TIMESTAMP_WIDTH as nat, 16);
    let tb = time_digits(b);
    assert(tb.take(tb.len() as int) =~= tb);
    law_names_sort_as_jobs(a, b);
}

} // verus!
