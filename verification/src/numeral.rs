//! Unsigned numerals in bases two to sixteen: writing, padding, reading.
use vstd::arithmetic::power::{
    lemma_pow0, lemma_pow1, lemma_pow_increases, lemma_pow_positive, pow,
};
use vstd::prelude::*;

verus! {

/// The character of the digit `d`: `0` to `9`, then `a` to `f`.
pub open spec fn digit_char(d: nat) -> char {
    if d < 10 {
        ('0' as u32 + d) as char
    } else {
        ('a' as u32 + (d - 10)) as char
    }
}

/// The value of a digit, a letter in either case; `None` for any other character and for a digit
/// that `base` does not have.
pub open spec fn digit_value(c: char, base: nat) -> Option<nat> {
    let v: int = if '0' <= c <= '9' {
        c as u32 - '0' as u32
    } else if 'a' <= c <= 'f' {
        c as u32 - 'a' as u32 + 10
    } else if 'A' <= c <= 'F' {
        c as u32 - 'A' as u32 + 10
    } else {
        base as int
    };
    if v < base {
        Some(v as nat)
    } else {
        None
    }
}

/// `n` written in `base`, with no leading zero.
pub open spec fn numeral(n: nat, base: nat) -> Seq<char>
    decreases n,
{
    if base < 2 || n < base {
        seq![digit_char(n)]
    } else {
        proof {
            vstd::arithmetic::div_mod::lemma_div_decreases(n as int, base as int);
        }
        numeral(n / base, base).push(digit_char(n % base))
    }
}

/// `s` with as many `0` in front as it takes to make it `width` characters long.
pub open spec fn zero_padded(s: Seq<char>, width: nat) -> Seq<char> {
    if s.len() < width {
        Seq::new((width - s.len()) as nat, |i: int| '0') + s
    } else {
        s
    }
}

/// Whether `s` is made of digits of `base` alone.
pub open spec fn all_digits(s: Seq<char>, base: nat) -> bool {
    forall|i: int| 0 <= i < s.len() ==> digit_value(#[trigger] s[i], base) is Some
}

/// The number that the digits `s` stand for in `base`.
pub open spec fn value(s: Seq<char>, base: nat) -> nat
    decreases s.len(),
{
    if s.len() == 0 {
        0
    } else {
        value(s.drop_last(), base) * base + digit_value(s.last(), base).unwrap_or(0)
    }
}

/// `s` without a plus sign at its start.
pub open spec fn unsigned_part(s: Seq<char>) -> Seq<char> {
    if s.len() > 0 && s[0] == '+' {
        s.drop_first()
    } else {
        s
    }
}

/// The number that `s` writes in `base`: one or more digits, after a plus sign or none, of a
/// value of at most `max`.
pub open spec fn read_number(s: Seq<char>, base: nat, max: nat) -> Option<nat> {
    let digits = unsigned_part(s);
    if digits.len() > 0 && all_digits(digits, base) && value(digits, base) <= max {
        Some(value(digits, base))
    } else {
        None
    }
}

/// Appends `n`, written in `base`, to `out`.
pub fn push_numeral(out: &mut String, n: u64, base: u64)
    requires
        2 <= base <= 16,
    ensures
        final(out)@ == old(out)@ + numeral(n as nat, base as nat),
    decreases n,
{
    if n >= base {
        proof {
            vstd::arithmetic::div_mod::lemma_div_decreases(n as int, base as int);
        }
        push_numeral(out, n / base, base);
    }
    out.push(digit_of(n % base));
    proof {
        if n < base {
            vstd::arithmetic::div_mod::lemma_small_mod(n as nat, base as nat);
        }
        assert(out@ =~= old(out)@ + numeral(n as nat, base as nat));
    }
}

/// The character of the digit `d`.
fn digit_of(d: u64) -> (r: char)
    requires
        d < 16,
    ensures
        r == digit_char(d as nat),
{
    if d < 10 {
        (48u8 + d as u8) as char
    } else {
        (97u8 + (d - 10) as u8) as char
    }
}

/// The value of the digit `c` in `base`.
fn value_of_digit(c: char, base: u64) -> (r: Option<u64>)
    requires
        2 <= base <= 16,
    ensures
        match r {
            Some(v) => digit_value(c, base as nat) == Some(v as nat),
            None => digit_value(c, base as nat) is None,
        },
{
    let v: u64 = if '0' <= c && c <= '9' {
        c as u64 - '0' as u64
    } else if 'a' <= c && c <= 'f' {
        c as u64 - 'a' as u64 + 10
    } else if 'A' <= c && c <= 'F' {
        c as u64 - 'A' as u64 + 10
    } else {
        base
    };
    if v < base {
        Some(v)
    } else {
        None
    }
}

/// The number that `chars[from..to]` writes in `base`, where it is at most `max`.
pub fn parse_number(chars: &Vec<char>, from: usize, to: usize, base: u64, max: u64) -> (r: Option<
    u64,
>)
    requires
        from <= to <= chars@.len(),
        2 <= base <= 16,
    ensures
        match r {
            Some(n) => read_number(
                chars@.subrange(from as int, to as int),
                base as nat,
                max as nat,
            ) == Some(n as nat),
            None => read_number(
                chars@.subrange(from as int, to as int),
                base as nat,
                max as nat,
            ) is None,
        },
{
    let ghost whole = chars@.subrange(from as int, to as int);
    let ghost b = base as nat;
    let start: usize = if from < to && chars[from] == '+' {
        from + 1
    } else {
        from
    };
    let ghost digits = chars@.subrange(start as int, to as int);
    assert(digits =~= unsigned_part(whole));
    if start == to {
        return None;
    }
    let mut n: u64 = 0;
    let mut i: usize = start;
    assert(digits.take(0).len() == 0);
    while i < to
        invariant
            from <= start <= i <= to <= chars@.len(),
            2 <= base <= 16,
            b == base,
            n <= max,
            start < to,
            digits == chars@.subrange(start as int, to as int),
            digits == unsigned_part(whole),
            whole == chars@.subrange(from as int, to as int),
            all_digits(digits.take(i - start), b),
            n == value(digits.take(i - start), b),
        decreases to - i,
    {
        let ghost done = digits.take(i - start);
        let ghost next = digits.take(i - start + 1);
        assert(digits[i - start] == chars@[i as int]);
        match value_of_digit(chars[i], base) {
            None => {
                proof {
                    assert(!all_digits(digits, b));
                }
                return None;
            },
            Some(d) => {
                proof {
                    assert(next.drop_last() =~= done);
                    assert(value(next, b) == n as nat * b + d as nat);
                    assert(n as u128 * base as u128 <= 0xffff_ffff_ffff_ffff * 16)
                        by (nonlinear_arith)
                        requires
                            n <= 0xffff_ffff_ffff_ffff,
                            base <= 16,
                    ;
                }
                let m: u128 = n as u128 * base as u128 + d as u128;
                if m > max as u128 {
                    proof {
                        lemma_value_of_prefix(digits, b, i - start + 1);
                    }
                    return None;
                }
                n = m as u64;
                proof {
                    assert forall|j: int| 0 <= j < next.len() implies digit_value(
                        #[trigger] next[j],
                        b,
                    ) is Some by {
                        if j < done.len() {
                            assert(done[j] == next[j]);
                        }
                    }
                }
            },
        }
        i = i + 1;
    }
    proof {
        assert(digits.take(to - start) =~= digits);
    }
    Some(n)
}

/// A prefix of some digits stands for no more than all of them.
proof fn lemma_value_of_prefix(s: Seq<char>, base: nat, k: int)
    requires
        0 <= k <= s.len(),
        base >= 1,
    ensures
        value(s.take(k), base) <= value(s, base),
    decreases s.len() - k,
{
    if k == s.len() {
        assert(s.take(k) =~= s);
    } else {
        lemma_value_of_prefix(s, base, k + 1);
        assert(s.take(k + 1).drop_last() =~= s.take(k));
        let v = value(s.take(k), base);
        assert(v <= v * base) by (nonlinear_arith)
            requires
                base >= 1,
        ;
    }
}

/// Writing a digit and reading it again gives the digit back; no digit is a dot or a sign.
pub proof fn lemma_digit(d: nat, base: nat)
    requires
        d < base <= 16,
    ensures
        digit_value(digit_char(d), base) == Some(d),
        digit_char(d) != '.',
        digit_char(d) != '+',
{
}

/// A numeral is made of digits, at least one, and stands for the number that it writes.
pub proof fn lemma_numeral(n: nat, base: nat)
    requires
        2 <= base <= 16,
    ensures
        numeral(n, base).len() > 0,
        all_digits(numeral(n, base), base),
        value(numeral(n, base), base) == n,
    decreases n,
{
    if n < base {
        lemma_digit(n, base);
        let s = seq![digit_char(n)];
        assert(s.drop_last() =~= Seq::<char>::empty());
        assert(s.last() == digit_char(n));
        assert(value(s.drop_last(), base) == 0);
        assert(0 * base == 0) by (nonlinear_arith);
    } else {
        vstd::arithmetic::div_mod::lemma_div_decreases(n as int, base as int);
        vstd::arithmetic::div_mod::lemma_fundamental_div_mod(n as int, base as int);
        lemma_numeral(n / base, base);
        lemma_digit(n % base, base);
        let high = numeral(n / base, base);
        let s = high.push(digit_char(n % base));
        assert(s.drop_last() =~= high);
        assert(n == (n / base) * base + n % base) by (nonlinear_arith)
            requires
                n == base * (n / base) + n % base,
        ;
    }
}

/// Zeros in front change neither that a sequence is made of digits nor what it stands for.
pub proof fn lemma_zero_padded(s: Seq<char>, width: nat, base: nat)
    requires
        2 <= base <= 16,
        all_digits(s, base),
    ensures
        all_digits(zero_padded(s, width), base),
        value(zero_padded(s, width), base) == value(s, base),
        zero_padded(s, width).len() == if s.len() < width { width } else { s.len() },
{
    if s.len() < width {
        let zeros = Seq::new((width - s.len()) as nat, |i: int| '0');
        lemma_value_after_zeros(zeros, s, base);
    }
}

proof fn lemma_value_after_zeros(zeros: Seq<char>, s: Seq<char>, base: nat)
    requires
        2 <= base <= 16,
        forall|i: int| 0 <= i < zeros.len() ==> zeros[i] == '0',
    ensures
        value(zeros + s, base) == value(s, base),
    decreases zeros.len() + s.len(),
{
    let t = zeros + s;
    if s.len() > 0 {
        assert(t.drop_last() =~= zeros + s.drop_last());
        lemma_value_after_zeros(zeros, s.drop_last(), base);
    } else if zeros.len() > 0 {
        let shorter = zeros.drop_last();
        assert(t.drop_last() =~= shorter + s);
        lemma_value_after_zeros(shorter, s, base);
        assert(t.last() == '0');
        assert(0 * base == 0) by (nonlinear_arith);
    }
}

/// A padded numeral is read as the number that it writes, where that number is in range.
pub proof fn lemma_read_padded_numeral(n: nat, base: nat, width: nat, max: nat)
    requires
        2 <= base <= 16,
        n <= max,
    ensures
        read_number(zero_padded(numeral(n, base), width), base, max) == Some(n),
        !zero_padded(numeral(n, base), width).contains('.'),
{
    let s = zero_padded(numeral(n, base), width);
    lemma_numeral(n, base);
    lemma_zero_padded(numeral(n, base), width, base);
    assert(digit_value(s[0], base) is Some);
    assert(s[0] != '+');
    if s.contains('.') {
        let k = choose|k: int| 0 <= k < s.len() && s[k] == '.';
        assert(digit_value(s[k], base) is Some);
    }
}

/// Whether `s` is how `n` is written in `base` with at least `width` digits: from the right, the digit
/// at the place `k` is the one that counts `base` to the power of `k`, and there are no more digits
/// than it takes.
pub open spec fn writes(s: Seq<char>, n: nat, base: nat, width: nat) -> bool {
    &&& s.len() >= 1 && s.len() >= width
    &&& n < pow(base as int, s.len())
    &&& s.len() > 1 && s.len() > width ==> pow(base as int, (s.len() - 1) as nat) <= n
    &&& forall|k: int| 0 <= k < s.len() ==> (#[trigger] s[s.len() - 1 - k]) as int == digit_code(
        n as int / pow(base as int, k as nat) % base as int,
    )
}

/// The code of the character of the digit `d`: `0` to `9`, then `a` to `f`.
pub open spec fn digit_code(d: int) -> int {
    if d < 10 {
        48 + d
    } else {
        87 + d
    }
}

/// A numeral is the positional notation of its number, and has no leading zero.
pub proof fn law_numeral_is_positional(n: nat, base: nat)
    requires
        2 <= base <= 16,
    ensures
        writes(numeral(n, base), n, base, 0),
    decreases n,
{
    let b = base as int;
    let s = numeral(n, base);
    lemma_pow0(b);
    lemma_pow1(b);
    if n < base {
        assert(s.len() == 1);
        vstd::arithmetic::div_mod::lemma_small_mod(n, base);
        assert(n as int / pow(b, 0) == n) by {
            assert(n as int / 1 == n);
        }
        assert forall|k: int| 0 <= k < s.len() implies (#[trigger] s[s.len() - 1 - k]) as int
            == digit_code(n as int / pow(b, k as nat) % b) by {
            assert(k == 0);
        }
    } else {
        let m = n / base;
        let high = numeral(m, base);
        vstd::arithmetic::div_mod::lemma_div_decreases(n as int, b);
        vstd::arithmetic::div_mod::lemma_fundamental_div_mod(n as int, b);
        law_numeral_is_positional(m, base);
        lemma_numeral(m, base);
        let l = high.len();
        assert(s.len() == l + 1);
        assert(pow(b, l + 1) == b * pow(b, l)) by {
            reveal(pow);
        }
        assert(n < b * pow(b, l)) by (nonlinear_arith)
            requires
                n as int == b * m + n % base,
                0 <= n % base < b,
                m < pow(b, l),
        ;
        if l > 1 {
            assert(pow(b, l) == b * pow(b, (l - 1) as nat)) by {
                reveal(pow);
            }
            assert(b * pow(b, (l - 1) as nat) <= n) by (nonlinear_arith)
                requires
                    n as int == b * m + n % base,
                    0 <= n % base,
                    b > 0,
                    pow(b, (l - 1) as nat) <= m,
            ;
        } else {
            assert(pow(b, l) == b);
        }
        assert forall|k: int| 0 <= k < s.len() implies (#[trigger] s[s.len() - 1 - k]) as int
            == digit_code(n as int / pow(b, k as nat) % b) by {
            if k == 0 {
                assert(n as int / 1 == n);
                assert(s.last() == digit_char(n % base));
            } else {
                let p = pow(b, (k - 1) as nat);
                lemma_pow_positive(b, (k - 1) as nat);
                assert(pow(b, k as nat) == b * p) by {
                    reveal(pow);
                }
                vstd::arithmetic::div_mod::lemma_div_denominator(n as int, b, p);
                assert(s[s.len() - 1 - k] == high[l - 1 - (k - 1)]);
            }
        }
    }
}

/// The same of a numeral with zeros in front: it has `width` digits at least, and more only where the
/// number takes more.
pub proof fn law_padded_numeral_is_positional(n: nat, base: nat, width: nat)
    requires
        2 <= base <= 16,
    ensures
        writes(zero_padded(numeral(n, base), width), n, base, width),
{
    let b = base as int;
    let s = numeral(n, base);
    let t = zero_padded(s, width);
    law_numeral_is_positional(n, base);
    if s.len() < width {
        assert(t.len() == width);
        lemma_pow_increases(base, s.len(), width);
        assert forall|k: int| 0 <= k < t.len() implies (#[trigger] t[t.len() - 1 - k]) as int
            == digit_code(n as int / pow(b, k as nat) % b) by {
            if k < s.len() {
                assert(t[t.len() - 1 - k] == s[s.len() - 1 - k]);
            } else {
                lemma_pow_increases(base, s.len(), k as nat);
                vstd::arithmetic::div_mod::lemma_basic_div(n as int, pow(b, k as nat));
                vstd::arithmetic::div_mod::lemma_small_mod(0, base);
                assert(t[t.len() - 1 - k] == '0');
            }
        }
    }
}

/// Two sequences of the same length that write numbers as positional notation does write the same
/// number only where they are the same.
pub proof fn law_positional_is_unique(s: Seq<char>, t: Seq<char>, n: nat, base: nat, width: nat)
    requires
        2 <= base <= 16,
        writes(s, n, base, width),
        writes(t, n, base, width),
    ensures
        s == t,
{
    let b = base as int;
    if s.len() < t.len() {
        lemma_pow_increases(base, s.len(), (t.len() - 1) as nat);
    }
    if t.len() < s.len() {
        lemma_pow_increases(base, t.len(), (s.len() - 1) as nat);
    }
    assert(s.len() == t.len());
    assert forall|i: int| 0 <= i < s.len() implies s[i] == t[i] by {
        let k = s.len() - 1 - i;
        assert(s[s.len() - 1 - k] as int == digit_code(n as int / pow(b, k as nat) % b));
        assert(t[t.len() - 1 - k] as int == digit_code(n as int / pow(b, k as nat) % b));
    }
    assert(s =~= t);
}

/// The characters that are digits, and what each counts.
pub proof fn law_digit_values(c: char, base: nat, v: nat)
    requires
        2 <= base <= 16,
    ensures
        digit_value(c, base) == Some(v) <==> v < base && {
            ||| v < 10 && c as int == 48 + v
            ||| v >= 10 && c as int == 87 + v
            ||| v >= 10 && c as int == 55 + v
        },
        digit_value(c, base) is None <==> forall|w: nat| w < base ==> digit_value(c, base) != Some(w),
{
    if digit_value(c, base) is Some {
        assert(digit_value(c, base)->0 < base);
    }
}

/// Digits count by place: those in front of some others count `base` times as much for each of these.
/// No digits count nothing, and one counts what it stands for.
pub proof fn law_value_by_place(a: Seq<char>, b: Seq<char>, c: char, base: nat)
    requires
        2 <= base <= 16,
    ensures
        value(a + b, base) == value(a, base) * pow(base as int, b.len()) + value(b, base),
        value(Seq::<char>::empty(), base) == 0,
        digit_value(c, base) matches Some(v) ==> value(seq![c], base) == v,
    decreases b.len(),
{
    let one = seq![c];
    assert(one.drop_last() =~= Seq::<char>::empty());
    assert(value(one.drop_last(), base) == 0);
    assert(0 * base == 0) by (nonlinear_arith);
    let s = a + b;
    if b.len() == 0 {
        lemma_pow0(base as int);
        assert(s =~= a);
        assert(value(b, base) == 0);
        assert(value(a, base) * 1 == value(a, base));
    } else {
        let front = b.drop_last();
        law_value_by_place(a, front, c, base);
        assert(s.drop_last() =~= a + front);
        assert(s.last() == b.last());
        let p = pow(base as int, front.len());
        assert(pow(base as int, b.len()) == base * p) by {
            reveal(pow);
        }
        let x = value(a, base) as int;
        let y = value(front, base) as int;
        assert((x * p + y) * base == x * (base * p) + y * base) by (nonlinear_arith);
    }
}

/// What is read as a number: digits of the base, one at least, after a plus sign or none, that count no
/// more than the bound. What is read is what they count.
pub proof fn law_read_number(s: Seq<char>, digits: Seq<char>, base: nat, max: nat)
    requires
        s == seq!['+'] + digits || (s == digits && !(s.len() > 0 && s[0] == '+')),
    ensures
        read_number(s, base, max) is Some <==> digits.len() > 0 && value(digits, base) <= max
            && forall|i: int|
            0 <= i < digits.len() ==> digit_value(#[trigger] digits[i], base) is Some,
        read_number(s, base, max) matches Some(n) ==> n == value(digits, base),
{
    assert((seq!['+'] + digits).drop_first() =~= digits);
    assert(unsigned_part(s) == digits);
}

/// Zeros are put in front, as many as it takes, and nothing is changed behind them.
pub proof fn law_zero_padded(s: Seq<char>, width: nat)
    ensures
        ({
            let t = zero_padded(s, width);
            let gap = t.len() - s.len();
            &&& t.len() == if s.len() < width {
                width
            } else {
                s.len()
            }
            &&& forall|i: int| 0 <= i < gap ==> t[i] == '0'
            &&& t.subrange(gap, t.len() as int) == s
        }),
{
    let t = zero_padded(s, width);
    assert(t.subrange(t.len() - s.len(), t.len() as int) =~= s);
}

/// How numbers are written: a number below the base as one character, by its code; and one digit more
/// behind a number as that digit behind what is written of the number.
pub proof fn law_numeral_grows(n: nat, d: nat, base: nat)
    requires
        2 <= base <= 16,
        d < base,
    ensures
        numeral(d, base).len() == 1,
        d < 10 ==> numeral(d, base)[0] as int == 48 + d,
        d >= 10 ==> numeral(d, base)[0] as int == 87 + d,
        n > 0 ==> numeral(n * base + d, base) == numeral(n, base) + numeral(d, base),
{
    if n > 0 {
        let m = n * base + d;
        assert(m >= base) by (nonlinear_arith)
            requires
                m == n * base + d,
                n > 0,
        ;
        vstd::arithmetic::div_mod::lemma_fundamental_div_mod_converse(
            m as int,
            base as int,
            n as int,
            d as int,
        );
        assert(numeral(m, base) =~= numeral(n, base) + numeral(d, base));
    }
}

} // verus!
