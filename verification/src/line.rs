//! Where, in the bytes of a job file, the exec line ends and the output starts.
use crate::exec::{
    escaped, escaped_byte, escaped_bytes, exec_line, is_safe, lemma_escaped_bytes_concat,
    lemma_escaped_encoding, lemma_unsafe_bytes, needs_quotes, quoted, shell_text, shell_word,
};
use crate::shell::lemma_shell_text_first;
use crate::utf8::{lemma_encode_ascii, lemma_encode_concat};
use vstd::prelude::*;
use vstd::utf8::{
    decode_utf8, decode_utf8_encode_utf8, encode_utf8, encode_utf8_decode_utf8, encode_utf8_valid_utf8, valid_utf8,
};

verus! {

/// What quotes a place in a line stands in.
#[derive(Debug, Clone, Copy, PartialEq, Eq, Structural)]
pub enum Quotes {
    Outside,
    Single,
    Double,
}

/// What quotes the place behind the byte `b` stands in, where `b` stands in `quotes`.
pub open spec fn quotes_after(quotes: Quotes, b: u8) -> Quotes {
    match quotes {
        Quotes::Outside => if b == 0x27 {
            Quotes::Single
        } else if b == 0x22 {
            Quotes::Double
        } else {
            Quotes::Outside
        },
        Quotes::Single => if b == 0x27 {
            Quotes::Outside
        } else {
            Quotes::Single
        },
        Quotes::Double => if b == 0x22 {
            Quotes::Outside
        } else {
            Quotes::Double
        },
    }
}

/// The length of the line at the start of `s`, with the newline at its end where it has one. A
/// newline inside quotes, or behind a backslash, is a part of the line; inside single quotes a
/// backslash is nothing special. `quotes` says what quotes `s` starts in.
pub open spec fn line_length(s: Seq<u8>, quotes: Quotes) -> int
    decreases s.len(),
{
    if s.len() == 0 {
        0
    } else {
        let rest = s.drop_first();
        if s[0] == 0x0a && quotes == Quotes::Outside {
            1
        } else if s[0] == 0x5c && quotes != Quotes::Single && rest.len() > 0 {
            2 + line_length(rest.drop_first(), quotes)
        } else {
            1 + line_length(rest, quotes_after(quotes, s[0]))
        }
    }
}

/// The length of the exec line at the start of a job file with the content `content`.
pub open spec fn exec_line_length(content: Seq<u8>) -> int {
    line_length(content, Quotes::Outside)
}

/// Where, in a job file with the content `content`, the output of the job starts: behind the exec
/// line.
pub fn output_start(content: &[u8]) -> (r: usize)
    ensures
        r == exec_line_length(content@),
        r <= content@.len(),
{
    let mut i: usize = 0;
    let mut quotes: Quotes = Quotes::Outside;
    assert(content@.skip(0) =~= content@);
    while i < content.len()
        invariant
            i <= content@.len(),
            i + line_length(content@.skip(i as int), quotes) == exec_line_length(content@),
        decreases content@.len() - i,
    {
        let b: u8 = content[i];
        proof {
            let s = content@.skip(i as int);
            assert(s[0] == b);
            assert(s.drop_first() =~= content@.skip(i + 1));
            if i + 1 < content@.len() {
                assert(s.drop_first().drop_first() =~= content@.skip(i + 2));
            }
        }
        if b == 0x0a && quotes == Quotes::Outside {
            return i + 1;
        } else if b == 0x5c && quotes != Quotes::Single && i + 1 < content.len() {
            i = i + 2;
        } else {
            quotes = next_quotes(quotes, b);
            i = i + 1;
        }
    }
    i
}

/// The exec line at the start of a job file with the content `content`; `None` where it is not UTF-8.
pub open spec fn exec_line_of(content: Seq<u8>) -> Option<Seq<char>> {
    let line = content.take(exec_line_length(content));
    if valid_utf8(line) {
        Some(decode_utf8(line))
    } else {
        None
    }
}

/// `String::from_utf8`: the text that `bytes` encode, where they are valid UTF-8; no text where they
/// are not.
#[verifier::external_body]
fn decode(bytes: Vec<u8>) -> (r: Option<String>)
    ensures
        match r {
            Some(text) => valid_utf8(bytes@) && text@ == decode_utf8(bytes@),
            None => !valid_utf8(bytes@),
        },
{
    String::from_utf8(bytes).ok()
}

/// The exec line at the start of a job file with the content `content`; `None` where it is not UTF-8.
pub fn read_exec_line(content: &[u8]) -> (r: Option<String>)
    ensures
        match r {
            Some(line) => exec_line_of(content@) == Some(line@),
            None => exec_line_of(content@) is None,
        },
{
    let end = output_start(content);
    let mut line: Vec<u8> = Vec::new();
    let mut i: usize = 0;
    while i < end
        invariant
            i <= end <= content@.len(),
            line@ == content@.take(i as int),
        decreases end - i,
    {
        line.push(content[i]);
        i = i + 1;
        assert(line@ =~= content@.take(i as int));
    }
    decode(line)
}

/// What quotes the place behind the byte `b` stands in, where `b` stands in `quotes`.
fn next_quotes(quotes: Quotes, b: u8) -> (r: Quotes)
    ensures
        r == quotes_after(quotes, b),
{
    match quotes {
        Quotes::Outside => {
            if b == 0x27 {
                Quotes::Single
            } else if b == 0x22 {
                Quotes::Double
            } else {
                Quotes::Outside
            }
        },
        Quotes::Single => {
            if b == 0x27 {
                Quotes::Outside
            } else {
                Quotes::Single
            }
        },
        Quotes::Double => {
            if b == 0x22 {
                Quotes::Outside
            } else {
                Quotes::Double
            }
        },
    }
}

/// Whether the byte `b` has no meaning of its own outside quotes.
spec fn is_plain(b: u8) -> bool {
    b != 0x0a && b != 0x27 && b != 0x22 && b != 0x5c
}

/// Bytes without a meaning of their own are passed over outside quotes.
proof fn lemma_plain(p: Seq<u8>, rest: Seq<u8>)
    requires
        forall|i: int| 0 <= i < p.len() ==> is_plain(#[trigger] p[i]),
    ensures
        line_length(p + rest, Quotes::Outside) == p.len() + line_length(rest, Quotes::Outside),
    decreases p.len(),
{
    if p.len() == 0 {
        assert(p + rest =~= rest);
    } else {
        let more = p.drop_first();
        assert(is_plain(p[0]));
        assert((p + rest).drop_first() =~= more + rest);
        assert forall|i: int| 0 <= i < more.len() implies is_plain(#[trigger] more[i]) by {
            assert(more[i] == p[i + 1]);
        }
        lemma_plain(more, rest);
    }
}

/// What is escaped inside quotes is passed over, up to the closing quote, whatever it holds.
proof fn lemma_escaped(s: Seq<u8>, rest: Seq<u8>)
    ensures
        line_length(escaped_bytes(s) + seq![0x27u8] + rest, Quotes::Single) == escaped_bytes(s).len() + 1
            + line_length(rest, Quotes::Outside),
    decreases s.len(),
{
    let tail = seq![0x27u8] + rest;
    assert(escaped_bytes(s) + seq![0x27u8] + rest =~= escaped_bytes(s) + tail);
    if s.len() == 0 {
        assert(escaped_bytes(s) + tail =~= tail);
        assert(tail.drop_first() =~= rest);
    } else {
        let b = s[0];
        let one = seq![b];
        let more = s.drop_first();
        assert(s =~= one + more);
        lemma_escaped_bytes_concat(one, more);
        assert(one.drop_last() =~= Seq::<u8>::empty());
        assert(escaped_bytes(one.drop_last()) =~= Seq::<u8>::empty());
        assert(escaped_bytes(one) =~= escaped_byte(b));
        let after = escaped_bytes(more) + tail;
        let all = escaped_bytes(s) + tail;
        assert(all =~= escaped_byte(b) + after);
        lemma_escaped(more, rest);
        assert(escaped_bytes(more) + seq![0x27u8] + rest =~= after);
        if b == 0x27 {
            let s1 = all.drop_first();
            let s2 = s1.drop_first().drop_first();
            assert(s1[0] == 0x5c);
            assert(s2[0] == 0x27);
            assert(s2.drop_first() =~= after);
            assert(line_length(s2, Quotes::Outside) == 1 + line_length(after, Quotes::Single));
            assert(line_length(s1, Quotes::Outside) == 2 + line_length(s2, Quotes::Outside));
            assert(line_length(all, Quotes::Single) == 1 + line_length(s1, Quotes::Outside));
        } else {
            assert(all.drop_first() =~= after);
        }
    }
}

/// What stands for an argument in an exec line is passed over.
proof fn lemma_word(arg: Seq<char>, rest: Seq<u8>)
    ensures
        line_length(encode_utf8(shell_word(arg)) + rest, Quotes::Outside) == encode_utf8(
            shell_word(arg),
        ).len() + line_length(rest, Quotes::Outside),
{
    let bytes = encode_utf8(shell_word(arg));
    if needs_quotes(arg) {
        let q = seq!['\''];
        let inner = encode_utf8(escaped(arg));
        lemma_encode_ascii('\'');
        lemma_encode_concat(q, escaped(arg));
        lemma_encode_concat(q + escaped(arg), q);
        assert(quoted(arg) =~= q + escaped(arg) + q);
        assert(bytes =~= seq![0x27u8] + inner + seq![0x27u8]);
        lemma_escaped_encoding(arg);
        lemma_escaped(encode_utf8(arg), rest);
        assert((bytes + rest).drop_first() =~= inner + seq![0x27u8] + rest);
    } else {
        lemma_unsafe_bytes(arg);
        assert forall|i: int| 0 <= i < bytes.len() implies is_plain(#[trigger] bytes[i]) by {
            assert(is_safe(bytes[i]));
        }
        lemma_plain(bytes, rest);
    }
}

/// The arguments in an exec line are passed over.
proof fn lemma_text(args: Seq<Seq<char>>, rest: Seq<u8>)
    ensures
        line_length(encode_utf8(shell_text(args)) + rest, Quotes::Outside) == encode_utf8(
            shell_text(args),
        ).len() + line_length(rest, Quotes::Outside),
    decreases args.len(),
{
    let bytes = encode_utf8(shell_text(args));
    if args.len() == 0 {
        assert(bytes =~= Seq::<u8>::empty());
        assert(bytes + rest =~= rest);
    } else {
        let space = seq![' '];
        let word = shell_word(args[0]);
        let more = shell_text(args.drop_first());
        lemma_shell_text_first(args);
        lemma_encode_ascii(' ');
        lemma_encode_concat(space, word);
        lemma_encode_concat(space + word, more);
        let after = encode_utf8(more) + rest;
        let blank = seq![0x20u8];
        assert(bytes + rest =~= blank + (encode_utf8(word) + after));
        lemma_plain(blank, encode_utf8(word) + after);
        lemma_word(args[0], after);
        lemma_text(args.drop_first(), rest);
    }
}

/// Of a job file that starts with the exec line of any arguments, that line is found whole, whatever
/// the arguments hold, and what is taken for the job's output is all that follows it.
pub proof fn law_output_is_behind_exec_line(args: Seq<Seq<char>>, output: Seq<u8>)
    ensures
        ({
            let line = encode_utf8(exec_line(args));
            let content = line + output;
            &&& exec_line_length(content) == line.len()
            &&& content.take(exec_line_length(content)) == line
            &&& exec_line_of(content) == Some(exec_line(args))
            &&& content.skip(exec_line_length(content)) == output
        }),
{
    let exec = seq!['e', 'x', 'e', 'c'];
    let text = shell_text(args);
    let line = encode_utf8(exec_line(args));
    let content = line + output;
    let word = seq![0x65u8, 0x78, 0x65, 0x63];
    let end = seq![0x0au8];
    assert(encode_utf8(exec) == word) by {
        lemma_encode_ascii('e');
        lemma_encode_ascii('x');
        lemma_encode_ascii('c');
        lemma_encode_concat(seq!['e'], seq!['x']);
        lemma_encode_concat(seq!['e'] + seq!['x'], seq!['e']);
        lemma_encode_concat(seq!['e'] + seq!['x'] + seq!['e'], seq!['c']);
        assert(exec =~= seq!['e'] + seq!['x'] + seq!['e'] + seq!['c']);
        assert(encode_utf8(exec) =~= word);
    }
    lemma_encode_ascii('\n');
    lemma_encode_concat(exec, text);
    lemma_encode_concat(exec + text, seq!['\n']);
    let rest = end + output;
    assert(rest[0] == 0x0a);
    assert(content =~= word + (encode_utf8(text) + rest));
    lemma_plain(word, encode_utf8(text) + rest);
    lemma_text(args, rest);
    assert(line_length(rest, Quotes::Outside) == 1);
    assert(exec_line_length(content) == line.len());
    assert(content.take(exec_line_length(content)) =~= line);
    encode_utf8_valid_utf8(exec_line(args));
    encode_utf8_decode_utf8(exec_line(args));
    assert(content.skip(exec_line_length(content)) =~= output);
}

/// Where a line ends, part by part. Outside quotes a newline ends it; bytes that are no newline, quote
/// or backslash are passed over one by one, and a backslash with the byte behind it; and what stands
/// between two single quotes, or between two double quotes with no backslash there, is passed over with
/// the quotes, whatever it holds. A line without an end is as long as the text.
pub proof fn law_line_by_parts(plain: Seq<u8>, inside: Seq<u8>, b: u8, rest: Seq<u8>)
    requires
        forall|i: int|
            0 <= i < plain.len() ==> #[trigger] plain[i] != 10 && plain[i] != 34 && plain[i] != 39
                && plain[i] != 92,
    ensures
        exec_line_length(Seq::<u8>::empty()) == 0,
        exec_line_length(seq![10u8] + rest) == 1,
        exec_line_length(plain) == plain.len(),
        exec_line_length(plain + rest) == plain.len() + exec_line_length(rest),
        exec_line_length(seq![92u8, b] + rest) == 2 + exec_line_length(rest),
        !inside.contains(39) ==> exec_line_length(seq![39u8] + inside + seq![39u8] + rest)
            == inside.len() + 2 + exec_line_length(rest),
        !inside.contains(34) && !inside.contains(92) ==> exec_line_length(
            seq![34u8] + inside + seq![34u8] + rest,
        ) == inside.len() + 2 + exec_line_length(rest),
{
    let none = Seq::<u8>::empty();
    assert forall|i: int| 0 <= i < plain.len() implies is_plain(#[trigger] plain[i]) by {
        assert(plain[i] != 10);
    }
    assert(plain + none =~= plain);
    lemma_plain(plain, none);
    lemma_plain(plain, rest);
    assert((seq![10u8] + rest)[0] == 10);
    let pair = seq![92u8, b] + rest;
    assert(pair.drop_first().drop_first() =~= rest);
    assert(pair[0] == 92);
    if !inside.contains(39) {
        let s = seq![39u8] + inside + seq![39u8] + rest;
        assert(s.drop_first() =~= inside + (seq![39u8] + rest));
        assert(s[0] == 39);
        lemma_inside(inside, rest, Quotes::Single);
    }
    if !inside.contains(34) && !inside.contains(92) {
        let s = seq![34u8] + inside + seq![34u8] + rest;
        assert(s.drop_first() =~= inside + (seq![34u8] + rest));
        assert(s[0] == 34);
        lemma_inside(inside, rest, Quotes::Double);
    }
}

/// What stands inside quotes is passed over with the quote that closes them.
proof fn lemma_inside(inside: Seq<u8>, rest: Seq<u8>, quotes: Quotes)
    requires
        quotes == Quotes::Single && !inside.contains(39) || quotes == Quotes::Double
            && !inside.contains(34) && !inside.contains(92),
    ensures
        ({
            let close = if quotes == Quotes::Single {
                39u8
            } else {
                34u8
            };
            line_length(inside + (seq![close] + rest), quotes) == inside.len() + 1 + line_length(
                rest,
                Quotes::Outside,
            )
        }),
    decreases inside.len(),
{
    let close = if quotes == Quotes::Single {
        39u8
    } else {
        34u8
    };
    let tail = seq![close] + rest;
    if inside.len() == 0 {
        assert(inside + tail =~= tail);
        assert(tail.drop_first() =~= rest);
    } else {
        let more = inside.drop_first();
        assert(inside.contains(inside[0]));
        assert forall|b: u8| more.contains(b) implies inside.contains(b) by {
            let k = choose|k: int| 0 <= k < more.len() && more[k] == b;
            assert(inside[k + 1] == b);
        }
        assert((inside + tail).drop_first() =~= more + tail);
        lemma_inside(more, rest, quotes);
    }
}

/// The exec line of a job file is its bytes up to the end of that line, decoded, where they are UTF-8:
/// encoded again it is those bytes.
pub proof fn law_exec_line_of(content: Seq<u8>)
    ensures
        0 <= exec_line_length(content) <= content.len(),
        valid_utf8(content.take(exec_line_length(content))) <==> exec_line_of(content) is Some,
        exec_line_of(content) matches Some(line) ==> encode_utf8(line) == content.take(
            exec_line_length(content),
        ),
{
    lemma_length_bound(content, Quotes::Outside);
    if valid_utf8(content.take(exec_line_length(content))) {
        decode_utf8_encode_utf8(content.take(exec_line_length(content)));
    }
}

proof fn lemma_length_bound(s: Seq<u8>, quotes: Quotes)
    ensures
        0 <= line_length(s, quotes) <= s.len(),
    decreases s.len(),
{
    if s.len() > 0 {
        let rest = s.drop_first();
        lemma_length_bound(rest, quotes_after(quotes, s[0]));
        if rest.len() > 0 {
            lemma_length_bound(rest.drop_first(), quotes);
        }
    }
}

} // verus!
