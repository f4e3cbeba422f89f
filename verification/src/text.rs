//! Characters and strings: conversions, searching, white space.
use vstd::prelude::*;
use vstd::string::*;

verus! {

/// `String::push` appends one character.
pub assume_specification[ String::push ](s: &mut String, c: char)
    ensures
        final(s)@ == old(s)@.push(c),
;

/// The characters of `s`, in order.
pub fn to_chars(s: &str) -> (r: Vec<char>)
    ensures
        r@ == s@,
{
    let mut out: Vec<char> = Vec::new();
    for c in it: s.chars()
        invariant
            out@ == it.seq().take(it.index() as int),
            it.seq() == s@,
    {
        out.push(c);
    }
    out
}

/// The string made of `chars[from..to]`.
pub fn from_chars(chars: &Vec<char>, from: usize, to: usize) -> (r: String)
    requires
        from <= to <= chars@.len(),
    ensures
        r@ == chars@.subrange(from as int, to as int),
{
    let mut out = String::new();
    let mut i: usize = from;
    while i < to
        invariant
            from <= i <= to <= chars@.len(),
            out@ == chars@.subrange(from as int, i as int),
        decreases to - i,
    {
        out.push(chars[i]);
        i = i + 1;
    }
    out
}

/// The string `a` followed by `b`.
pub fn concat(a: &str, b: &str) -> (r: String)
    ensures
        r@ == a@ + b@,
{
    let mut out = String::new();
    out.append(a);
    out.append(b);
    proof {
        assert(out@ =~= a@ + b@);
    }
    out
}

/// The index of the first `c` in `s`, or `s.len()` where there is none.
pub open spec fn find(s: Seq<char>, c: char) -> int
    decreases s.len(),
{
    if s.len() == 0 {
        0
    } else if s[0] == c {
        0
    } else {
        1 + find(s.drop_first(), c)
    }
}

/// What `find` returns is the one index at which `c` stands and before which it does not.
pub proof fn lemma_find(s: Seq<char>, c: char)
    ensures
        0 <= find(s, c) <= s.len(),
        forall|i: int| 0 <= i < find(s, c) ==> s[i] != c,
        find(s, c) < s.len() ==> s[find(s, c)] == c,
        find(s, c) < s.len() <==> s.contains(c),
    decreases s.len(),
{
    if s.len() > 0 && s[0] != c {
        let t = s.drop_first();
        lemma_find(t, c);
        assert forall|i: int| 0 <= i < find(s, c) implies s[i] != c by {
            if i > 0 {
                assert(t[i - 1] == s[i]);
            }
        }
        if s.contains(c) {
            let k = choose|k: int| 0 <= k < s.len() && s[k] == c;
            assert(t[k - 1] == c);
        }
    }
}

/// An index with `c` at it and none before it is the one that `find` returns.
pub proof fn lemma_find_unique(s: Seq<char>, c: char, k: int)
    requires
        0 <= k < s.len(),
        s[k] == c,
        forall|i: int| 0 <= i < k ==> s[i] != c,
    ensures
        find(s, c) == k,
{
    lemma_find(s, c);
    if find(s, c) < k {
        assert(s[find(s, c)] == c);
    }
}

/// The executable form of [`find`].
pub fn find_char(s: &Vec<char>, c: char) -> (r: usize)
    ensures
        r == find(s@, c),
{
    let mut i: usize = 0;
    while i < s.len()
        invariant
            i <= s@.len(),
            forall|j: int| 0 <= j < i ==> s@[j] != c,
        decreases s@.len() - i,
    {
        if s[i] == c {
            proof {
                lemma_find_unique(s@, c, i as int);
            }
            return i;
        }
        i = i + 1;
    }
    proof {
        lemma_find(s@, c);
    }
    i
}

/// The characters that Unicode gives the property White_Space.
pub open spec fn is_white_space(c: char) -> bool {
    ||| '\u{9}' <= c <= '\u{d}'
    ||| c == '\u{20}'
    ||| c == '\u{85}'
    ||| c == '\u{a0}'
    ||| c == '\u{1680}'
    ||| '\u{2000}' <= c <= '\u{200a}'
    ||| c == '\u{2028}'
    ||| c == '\u{2029}'
    ||| c == '\u{202f}'
    ||| c == '\u{205f}'
    ||| c == '\u{3000}'
}

/// Which white space is meant.
#[derive(Debug, Clone, Copy, PartialEq, Eq, Structural)]
pub enum Space {
    /// All that Unicode knows.
    Unicode,
    /// That which is ASCII.
    Ascii,
}

/// Whether `c` is white space of the kind `kind`.
pub open spec fn is_space(c: char, kind: Space) -> bool {
    is_white_space(c) && (kind == Space::Ascii ==> c <= '\u{7f}')
}

/// `s` without the white space at its start.
pub open spec fn trim_start(s: Seq<char>, kind: Space) -> Seq<char>
    decreases s.len(),
{
    if s.len() > 0 && is_space(s[0], kind) {
        trim_start(s.drop_first(), kind)
    } else {
        s
    }
}

/// `s` without the white space at its end.
pub open spec fn trim_end(s: Seq<char>, kind: Space) -> Seq<char>
    decreases s.len(),
{
    if s.len() > 0 && is_space(s.last(), kind) {
        trim_end(s.drop_last(), kind)
    } else {
        s
    }
}

/// `s` without the white space at its two ends.
pub open spec fn trimmed(s: Seq<char>, kind: Space) -> Seq<char> {
    trim_end(trim_start(s, kind), kind)
}

/// Whether `c` is white space.
pub fn white_space(c: char) -> (r: bool)
    ensures
        r == is_white_space(c),
{
    ('\u{9}' <= c && c <= '\u{d}') || c == '\u{20}' || c == '\u{85}' || c == '\u{a0}' || c
        == '\u{1680}' || ('\u{2000}' <= c && c <= '\u{200a}') || c == '\u{2028}' || c
        == '\u{2029}' || c == '\u{202f}' || c == '\u{205f}' || c == '\u{3000}'
}

/// Whether `c` is white space of the kind `kind`.
fn space(c: char, kind: Space) -> (r: bool)
    ensures
        r == is_space(c, kind),
{
    match kind {
        Space::Unicode => white_space(c),
        Space::Ascii => white_space(c) && c <= '\u{7f}',
    }
}

/// `s` without the white space, of the kind `kind`, at its two ends.
pub fn trim(s: &str, kind: Space) -> (r: String)
    ensures
        r@ == trimmed(s@, kind),
{
    let chars = to_chars(s);
    let mut from: usize = 0;
    assert(chars@.subrange(0, chars@.len() as int) =~= chars@);
    while from < chars.len() && space(chars[from], kind)
        invariant
            from <= chars@.len(),
            trim_start(chars@.subrange(from as int, chars@.len() as int), kind) == trim_start(
                chars@,
                kind,
            ),
        decreases chars@.len() - from,
    {
        proof {
            let rest = chars@.subrange(from as int, chars@.len() as int);
            assert(rest.drop_first() =~= chars@.subrange(from + 1, chars@.len() as int));
        }
        from = from + 1;
    }
    let ghost started = trim_start(chars@, kind);
    assert(chars@.subrange(from as int, chars@.len() as int) == started);
    let mut to: usize = chars.len();
    while from < to && space(chars[to - 1], kind)
        invariant
            from <= to <= chars@.len(),
            trim_end(chars@.subrange(from as int, to as int), kind) == trim_end(started, kind),
        decreases to,
    {
        proof {
            let rest = chars@.subrange(from as int, to as int);
            assert(rest.drop_last() =~= chars@.subrange(from as int, to - 1));
        }
        to = to - 1;
    }
    from_chars(&chars, from, to)
}

/// The index that is found is that of the first such character, or the length where there is none.
pub proof fn law_find(s: Seq<char>, c: char)
    ensures
        0 <= find(s, c) <= s.len(),
        forall|i: int| 0 <= i < find(s, c) ==> s[i] != c,
        find(s, c) < s.len() ==> s[find(s, c)] == c,
{
    lemma_find(s, c);
}

/// What white space is among the ASCII characters: a tab, the end of a line and its kin, a space. The
/// white space that is meant by ASCII is that and no other.
pub proof fn law_ascii_space(c: char)
    ensures
        c as int <= 127 ==> (is_white_space(c) <==> 9 <= c as int <= 13 || c as int == 32),
        is_space(c, Space::Ascii) <==> 9 <= c as int <= 13 || c as int == 32,
        is_space(c, Space::Unicode) <==> is_white_space(c),
{
}

/// Trimming cuts white space, and nothing else, off the two ends, and all of it that is there: what is
/// left is a part of the text with white space around it and none at its ends.
pub proof fn law_trimmed(s: Seq<char>, kind: Space)
    ensures
        exists|i: int, j: int|
            #![trigger s.subrange(i, j)]
            {
                &&& 0 <= i <= j <= s.len()
                &&& trimmed(s, kind) == s.subrange(i, j)
                &&& forall|k: int| 0 <= k < i ==> is_space(#[trigger] s[k], kind)
                &&& forall|k: int| j <= k < s.len() ==> is_space(#[trigger] s[k], kind)
            },
        trimmed(s, kind).len() > 0 ==> !is_space(trimmed(s, kind)[0], kind) && !is_space(
            trimmed(s, kind).last(),
            kind,
        ),
{
    let i = lemma_trim_start(s, kind);
    let t = trim_start(s, kind);
    let m = lemma_trim_end(t, kind);
    let j = i + m;
    assert(trimmed(s, kind) =~= s.subrange(i, j));
    assert forall|k: int| j <= k < s.len() implies is_space(#[trigger] s[k], kind) by {
        assert(t[k - i] == s[k]);
    }
    if trimmed(s, kind).len() > 0 {
        assert(trimmed(s, kind)[0] == t[0]);
    }
}

proof fn lemma_trim_start(s: Seq<char>, kind: Space) -> (i: int)
    ensures
        0 <= i <= s.len(),
        trim_start(s, kind) == s.subrange(i, s.len() as int),
        forall|k: int| 0 <= k < i ==> is_space(#[trigger] s[k], kind),
        trim_start(s, kind).len() > 0 ==> !is_space(trim_start(s, kind)[0], kind),
    decreases s.len(),
{
    if s.len() > 0 && is_space(s[0], kind) {
        let rest = s.drop_first();
        let i = lemma_trim_start(rest, kind);
        assert(rest.subrange(i, rest.len() as int) =~= s.subrange(i + 1, s.len() as int));
        assert forall|k: int| 0 <= k < i + 1 implies is_space(#[trigger] s[k], kind) by {
            if k > 0 {
                assert(rest[k - 1] == s[k]);
            }
        }
        i + 1
    } else {
        assert(s.subrange(0, s.len() as int) =~= s);
        0
    }
}

proof fn lemma_trim_end(s: Seq<char>, kind: Space) -> (j: int)
    ensures
        0 <= j <= s.len(),
        trim_end(s, kind) == s.subrange(0, j),
        forall|k: int| j <= k < s.len() ==> is_space(#[trigger] s[k], kind),
        trim_end(s, kind).len() > 0 ==> !is_space(trim_end(s, kind).last(), kind),
    decreases s.len(),
{
    if s.len() > 0 && is_space(s.last(), kind) {
        let front = s.drop_last();
        let j = lemma_trim_end(front, kind);
        assert(front.subrange(0, j) =~= s.subrange(0, j));
        assert forall|k: int| j <= k < s.len() implies is_space(#[trigger] s[k], kind) by {
            if k < front.len() {
                assert(front[k] == s[k]);
            }
        }
        j
    } else {
        assert(s.subrange(0, s.len() as int) =~= s);
        s.len() as int
    }
}

} // verus!
