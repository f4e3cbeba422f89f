//! The exec line: the first line of a job file, which is the command to run, written so that a
//! shell reads it back as the same arguments.
//!
//! An argument stands as it is where it has no unsafe character (control characters, space, and
//! what a shell treats specially: `` !"#$&'()*;<=>?[\]^`{|}~ `` and DEL). Any other, and the empty
//! one, is put in single quotes, with a single quote inside written as `'\''`: end the quotes, a
//! literal quote, start them again.
use crate::text::to_chars;
use crate::utf8::{
    lemma_encode_ascii, lemma_encode_beyond_ascii, lemma_encode_concat, lemma_encode_first,
};
use vstd::prelude::*;
use vstd::string::*;
use vstd::utf8::{encode_scalar, encode_utf8};

verus! {

/// The error of an input or output operation, as the operating system reports it.
#[verifier::external_type_specification]
#[verifier::external_body]
pub struct ExIoError(std::io::Error);

/// Whether an argument with the character `c` in it has to be quoted.
pub open spec fn is_unsafe(c: char) -> bool {
    ||| c <= ' '
    ||| c == '!'
    ||| c == '"'
    ||| c == '#'
    ||| c == '$'
    ||| c == '&'
    ||| c == '\''
    ||| c == '('
    ||| c == ')'
    ||| c == '*'
    ||| c == ';'
    ||| c == '<'
    ||| c == '='
    ||| c == '>'
    ||| c == '?'
    ||| c == '['
    ||| c == '\\'
    ||| c == ']'
    ||| c == '^'
    ||| c == '`'
    ||| c == '{'
    ||| c == '|'
    ||| c == '}'
    ||| c == '~'
    ||| c == '\u{7f}'
}

/// Whether the argument `arg` has to be quoted.
pub open spec fn needs_quotes(arg: Seq<char>) -> bool {
    arg.len() == 0 || exists|i: int| 0 <= i < arg.len() && is_unsafe(#[trigger] arg[i])
}

/// What stands for `c` inside single quotes.
pub open spec fn escaped_char(c: char) -> Seq<char> {
    if c == '\'' {
        seq!['\'', '\\', '\'', '\'']
    } else {
        seq![c]
    }
}

/// What stands for `s` inside single quotes.
pub open spec fn escaped(s: Seq<char>) -> Seq<char>
    decreases s.len(),
{
    if s.len() == 0 {
        seq![]
    } else {
        escaped(s.drop_last()) + escaped_char(s.last())
    }
}

/// `s` in single quotes.
pub open spec fn quoted(s: Seq<char>) -> Seq<char> {
    seq!['\''] + escaped(s) + seq!['\'']
}

/// The argument `arg` as it stands in an exec line.
pub open spec fn shell_word(arg: Seq<char>) -> Seq<char> {
    if needs_quotes(arg) {
        quoted(arg)
    } else {
        arg
    }
}

/// The arguments `args` as they stand in an exec line, a space in front of each.
pub open spec fn shell_text(args: Seq<Seq<char>>) -> Seq<char>
    decreases args.len(),
{
    if args.len() == 0 {
        seq![]
    } else {
        shell_text(args.drop_last()) + seq![' '] + shell_word(args.last())
    }
}

/// The exec line of `args`, with the newline at its end.
pub open spec fn exec_line(args: Seq<Seq<char>>) -> Seq<char> {
    seq!['e', 'x', 'e', 'c'] + shell_text(args) + seq!['\n']
}

/// The texts of some strings.
pub open spec fn texts(args: Seq<&str>) -> Seq<Seq<char>> {
    Seq::new(args.len(), |i: int| args[i]@)
}

/// Whether the byte `b` may stand in an argument that is not quoted.
pub open spec fn is_safe(b: u8) -> bool {
    !is_unsafe(b as char)
}

/// Whether the byte `b` may stand in an argument that is not quoted. Every byte of a character
/// beyond ASCII may.
pub fn is_safe_byte(b: u8) -> (r: bool)
    ensures
        r == is_safe(b),
        r == (b == 37 || 43 <= b <= 58 || 64 <= b <= 90 || b == 95 || 97 <= b <= 122 || 128 <= b),
{
    let c = b as char;
    !(c <= ' ' || c == '!' || c == '"' || c == '#' || c == '$' || c == '&' || c == '\'' || c == '('
        || c == ')' || c == '*' || c == ';' || c == '<' || c == '=' || c == '>' || c == '?' || c
        == '[' || c == '\\' || c == ']' || c == '^' || c == '`' || c == '{' || c == '|' || c == '}'
        || c == '~' || c == '\u{7f}')
}

/// Whether the argument `arg` has to be quoted.
fn quoting_needed(arg: &str) -> (r: bool)
    ensures
        r == needs_quotes(arg@),
{
    if arg.is_empty() {
        return true;
    }
    let bytes = arg.as_bytes();
    let mut i: usize = 0;
    while i < bytes.len()
        invariant
            i <= bytes@.len(),
            bytes@ == encode_utf8(arg@),
            arg@.len() > 0,
            forall|j: int| 0 <= j < i ==> is_safe(#[trigger] bytes@[j]),
        decreases bytes@.len() - i,
    {
        if !is_safe_byte(bytes[i]) {
            proof {
                lemma_unsafe_bytes(arg@);
            }
            return true;
        }
        i = i + 1;
    }
    proof {
        lemma_unsafe_bytes(arg@);
    }
    false
}

/// A text has an unsafe byte exactly where it has an unsafe character.
pub proof fn lemma_unsafe_bytes(s: Seq<char>)
    ensures
        (exists|i: int| 0 <= i < encode_utf8(s).len() && !is_safe(#[trigger] encode_utf8(s)[i]))
            <==> (exists|i: int| 0 <= i < s.len() && is_unsafe(#[trigger] s[i])),
    decreases s.len(),
{
    if s.len() > 0 {
        let c = s[0];
        let rest = s.drop_first();
        let head = encode_scalar(c as u32);
        let tail = encode_utf8(rest);
        let bytes = encode_utf8(s);
        lemma_encode_first(s);
        lemma_unsafe_bytes(rest);
        if c <= '\u{7f}' {
            lemma_encode_ascii(c);
            assert(head == seq![c as u8]);
            assert(bytes[0] == c as u8);
        } else {
            lemma_encode_beyond_ascii(c);
        }
        if exists|i: int| 0 <= i < s.len() && is_unsafe(#[trigger] s[i]) {
            let i = choose|i: int| 0 <= i < s.len() && is_unsafe(#[trigger] s[i]);
            if i == 0 {
                assert(!is_safe(bytes[0]));
            } else {
                assert(rest[i - 1] == s[i]);
                let j = choose|j: int| 0 <= j < tail.len() && !is_safe(#[trigger] tail[j]);
                assert(bytes[head.len() + j] == tail[j]);
            }
        }
        if exists|j: int| 0 <= j < bytes.len() && !is_safe(#[trigger] bytes[j]) {
            let j = choose|j: int| 0 <= j < bytes.len() && !is_safe(#[trigger] bytes[j]);
            if j < head.len() {
                assert(bytes[j] == head[j]);
                assert(is_unsafe(s[0]));
            } else {
                assert(bytes[j] == tail[j - head.len()]);
                let i = choose|i: int| 0 <= i < rest.len() && is_unsafe(#[trigger] rest[i]);
                assert(s[i + 1] == rest[i]);
            }
        }
    }
}

/// Appends `s`, in single quotes, to `out`.
pub(crate) fn push_quoted(out: &mut String, s: &str)
    ensures
        final(out)@ == old(out)@ + quoted(s@),
{
    let chars = to_chars(s);
    out.push('\'');
    let ghost opened = out@;
    let mut i: usize = 0;
    assert(s@.take(0) =~= Seq::<char>::empty());
    while i < chars.len()
        invariant
            i <= chars@.len(),
            chars@ == s@,
            out@ == opened + escaped(s@.take(i as int)),
        decreases chars@.len() - i,
    {
        let c = chars[i];
        if c == '\'' {
            out.push('\'');
            out.push('\\');
            out.push('\'');
            out.push('\'');
        } else {
            out.push(c);
        }
        proof {
            let next = s@.take(i + 1);
            assert(next.drop_last() =~= s@.take(i as int));
            assert(out@ =~= opened + escaped(next));
        }
        i = i + 1;
    }
    assert(s@.take(i as int) =~= s@);
    out.push('\'');
    assert(out@ =~= old(out)@ + quoted(s@));
}

/// The exec line of `args`: `exec`, each argument behind a space and quoted where it has to be,
/// and a newline.
pub fn build_exec_line(args: &[&str]) -> (r: String)
    ensures
        r@ == exec_line(texts(args@)),
{
    let mut out = String::new();
    out.push('e');
    out.push('x');
    out.push('e');
    out.push('c');
    let ghost word = seq!['e', 'x', 'e', 'c'];
    let ghost all = texts(args@);
    let mut i: usize = 0;
    assert(all.take(0) =~= Seq::<Seq<char>>::empty());
    assert(out@ =~= word + shell_text(all.take(0)));
    while i < args.len()
        invariant
            i <= args@.len(),
            all == texts(args@),
            out@ == word + shell_text(all.take(i as int)),
        decreases args@.len() - i,
    {
        let arg: &str = args[i];
        let ghost before = out@;
        out.push(' ');
        if quoting_needed(arg) {
            push_quoted(&mut out, arg);
        } else {
            out.append(arg);
        }
        proof {
            let next = all.take(i + 1);
            assert(next.drop_last() =~= all.take(i as int));
            assert(next.last() == arg@);
            assert(out@ =~= before + seq![' '] + shell_word(arg@));
            assert(out@ =~= word + shell_text(next));
        }
        i = i + 1;
    }
    assert(all.take(i as int) =~= all);
    out.push('\n');
    assert(out@ =~= exec_line(all));
    out
}

/// What stands for the byte `b` inside single quotes.
pub open spec fn escaped_byte(b: u8) -> Seq<u8> {
    if b == 0x27 {
        seq![0x27u8, 0x5c, 0x27, 0x27]
    } else {
        seq![b]
    }
}

/// What stands for the bytes `s` inside single quotes.
pub open spec fn escaped_bytes(s: Seq<u8>) -> Seq<u8>
    decreases s.len(),
{
    if s.len() == 0 {
        seq![]
    } else {
        escaped_bytes(s.drop_last()) + escaped_byte(s.last())
    }
}

/// Two runs of bytes stand for themselves in a row as each does.
pub proof fn lemma_escaped_bytes_concat(a: Seq<u8>, b: Seq<u8>)
    ensures
        escaped_bytes(a + b) == escaped_bytes(a) + escaped_bytes(b),
    decreases b.len(),
{
    if b.len() == 0 {
        assert(a + b =~= a);
        assert(escaped_bytes(a) + escaped_bytes(b) =~= escaped_bytes(a));
    } else {
        lemma_escaped_bytes_concat(a, b.drop_last());
        assert((a + b).drop_last() =~= a + b.drop_last());
        assert((a + b).last() == b.last());
        assert(escaped_bytes(a) + (escaped_bytes(b.drop_last()) + escaped_byte(b.last())) =~= (
        escaped_bytes(a) + escaped_bytes(b.drop_last())) + escaped_byte(b.last()));
    }
}

/// Bytes among which no quote is stand for themselves.
proof fn lemma_escaped_bytes_plain(s: Seq<u8>)
    requires
        forall|i: int| 0 <= i < s.len() ==> #[trigger] s[i] != 0x27,
    ensures
        escaped_bytes(s) == s,
    decreases s.len(),
{
    if s.len() > 0 {
        lemma_escaped_bytes_plain(s.drop_last());
        assert(escaped_byte(s.last()) == seq![s.last()]);
        assert(s =~= s.drop_last() + seq![s.last()]);
    }
}

/// Escaping a text byte by byte gives the encoding of the text escaped character by character.
pub proof fn lemma_escaped_encoding(s: Seq<char>)
    ensures
        escaped_bytes(encode_utf8(s)) == encode_utf8(escaped(s)),
    decreases s.len(),
{
    if s.len() > 0 {
        let c = s.last();
        let one = seq![c];
        let front = s.drop_last();
        lemma_escaped_encoding(front);
        assert(s =~= front + one);
        lemma_encode_concat(front, one);
        lemma_escaped_bytes_concat(encode_utf8(front), encode_utf8(one));
        lemma_encode_concat(escaped(front), escaped_char(c));
        lemma_escaped_char_encoding(c);
    }
}

proof fn lemma_escaped_char_encoding(c: char)
    ensures
        escaped_bytes(encode_utf8(seq![c])) == encode_utf8(escaped_char(c)),
{
    let one = seq![c];
    if c == '\'' {
        lemma_encode_ascii(c);
        let bytes = seq![0x27u8];
        assert(bytes.drop_last() =~= Seq::<u8>::empty());
        assert(escaped_bytes(bytes.drop_last()) =~= Seq::<u8>::empty());
        assert(escaped_bytes(bytes) =~= seq![0x27u8, 0x5c, 0x27, 0x27]);
        lemma_encode_ascii('\\');
        let q = seq!['\''];
        let b = seq!['\\'];
        lemma_encode_concat(q, b);
        lemma_encode_concat(q + b, q);
        lemma_encode_concat(q + b + q, q);
        assert(escaped_char(c) =~= q + b + q + q);
        assert(encode_utf8(escaped_char(c)) =~= seq![0x27u8, 0x5c, 0x27, 0x27]);
    } else if c <= '\u{7f}' {
        lemma_encode_ascii(c);
        lemma_escaped_bytes_plain(seq![c as u8]);
    } else {
        lemma_encode_beyond_ascii(c);
        lemma_encode_first(one);
        lemma_escaped_bytes_plain(encode_scalar(c as u32));
    }
}

/// Appends the bytes of `arg`, in single quotes, to `writer`.
fn write_quoted(writer: &mut Vec<u8>, arg: &str)
    ensures
        final(writer)@ == old(writer)@ + encode_utf8(quoted(arg@)),
{
    let bytes = arg.as_bytes();
    writer.push(0x27);
    let ghost opened = writer@;
    let mut i: usize = 0;
    assert(bytes@.take(0) =~= Seq::<u8>::empty());
    while i < bytes.len()
        invariant
            i <= bytes@.len(),
            writer@ == opened + escaped_bytes(bytes@.take(i as int)),
        decreases bytes@.len() - i,
    {
        let b: u8 = bytes[i];
        if b == 0x27 {
            writer.push(0x27);
            writer.push(0x5c);
            writer.push(0x27);
            writer.push(0x27);
        } else {
            writer.push(b);
        }
        proof {
            let next = bytes@.take(i + 1);
            assert(next.drop_last() =~= bytes@.take(i as int));
            assert(writer@ =~= opened + escaped_bytes(next));
        }
        i = i + 1;
    }
    writer.push(0x27);
    proof {
        assert(bytes@.take(i as int) =~= bytes@);
        lemma_escaped_encoding(arg@);
        let q = seq!['\''];
        lemma_encode_ascii('\'');
        lemma_encode_concat(q, escaped(arg@));
        lemma_encode_concat(q + escaped(arg@), q);
        assert(writer@ =~= old(writer)@ + encode_utf8(quoted(arg@)));
    }
}

/// Appends the bytes of `text` to `writer`.
pub(crate) fn write_text(writer: &mut Vec<u8>, text: &str)
    ensures
        final(writer)@ == old(writer)@ + encode_utf8(text@),
{
    let bytes = text.as_bytes();
    let mut i: usize = 0;
    while i < bytes.len()
        invariant
            i <= bytes@.len(),
            writer@ == old(writer)@ + bytes@.take(i as int),
        decreases bytes@.len() - i,
    {
        writer.push(bytes[i]);
        i = i + 1;
        assert(writer@ =~= old(writer)@ + bytes@.take(i as int));
    }
    assert(bytes@.take(i as int) =~= bytes@);
}

/// Appends the exec line of `args` to `writer`, in UTF-8. Writing to memory does not fail.
pub fn write_exec_line(writer: &mut Vec<u8>, args: &[&str]) -> (r: std::io::Result<()>)
    ensures
        r is Ok,
        final(writer)@ == old(writer)@ + encode_utf8(exec_line(texts(args@))),
{
    let ghost start = writer@;
    let ghost word = seq!['e', 'x', 'e', 'c'];
    let ghost all = texts(args@);
    write_text(writer, "exec");
    let mut i: usize = 0;
    proof {
        reveal_strlit("exec");
        assert("exec"@ =~= word + shell_text(all.take(0)));
    }
    while i < args.len()
        invariant
            i <= args@.len(),
            all == texts(args@),
            word == seq!['e', 'x', 'e', 'c'],
            writer@ == start + encode_utf8(word + shell_text(all.take(i as int))),
        decreases args@.len() - i,
    {
        let arg: &str = args[i];
        let ghost before = word + shell_text(all.take(i as int));
        writer.push(0x20);
        if quoting_needed(arg) {
            write_quoted(writer, arg);
        } else {
            write_text(writer, arg);
        }
        proof {
            let next = all.take(i + 1);
            let space = seq![' '];
            assert(next.drop_last() =~= all.take(i as int));
            assert(next.last() == arg@);
            assert(word + shell_text(next) =~= before + space + shell_word(arg@));
            lemma_encode_ascii(' ');
            lemma_encode_concat(before, space);
            lemma_encode_concat(before + space, shell_word(arg@));
            assert(writer@ =~= start + encode_utf8(word + shell_text(next)));
        }
        i = i + 1;
    }
    writer.push(0x0a);
    proof {
        assert(all.take(i as int) =~= all);
        lemma_encode_ascii('\n');
        lemma_encode_concat(word + shell_text(all), seq!['\n']);
        assert(writer@ =~= start + encode_utf8(exec_line(all)));
    }
    Ok(())
}

/// Which characters make an argument be quoted, by their codes: control characters, the space, and what
/// a shell treats specially among the ASCII characters. Of a byte the same is asked.
pub proof fn law_unsafe_characters(c: char, b: u8)
    ensures
        is_unsafe(c) <==> {
            ||| c as int <= 36
            ||| 38 <= c as int <= 42
            ||| 59 <= c as int <= 63
            ||| 91 <= c as int <= 94
            ||| c as int == 96
            ||| 123 <= c as int <= 127
        },
        is_safe(b) <==> {
            ||| b == 37
            ||| 43 <= b <= 58
            ||| 64 <= b <= 90
            ||| b == 95
            ||| 97 <= b <= 122
            ||| 128 <= b
        },
{
}

/// Inside single quotes a quote is written as a quote, a backslash and two quotes; every other
/// character stands for itself; and a text is written character by character.
pub proof fn law_escaped(a: Seq<char>, b: Seq<char>, c: char)
    ensures
        escaped(a + b) == escaped(a) + escaped(b),
        escaped(Seq::<char>::empty()) == Seq::<char>::empty(),
        c as int != 39 ==> escaped(seq![c]) == seq![c],
        escaped(seq!['\'']) == seq!['\'', '\\', '\'', '\''],
    decreases b.len(),
{
    let q = seq!['\''];
    let one = seq![c];
    assert(q.drop_last() =~= Seq::<char>::empty());
    assert(one.drop_last() =~= Seq::<char>::empty());
    assert(escaped(q.drop_last()) =~= Seq::<char>::empty());
    assert(escaped(q) =~= seq!['\'', '\\', '\'', '\'']);
    assert(escaped(one) =~= escaped_char(c));
    if b.len() == 0 {
        assert(a + b =~= a);
        assert(escaped(a) + escaped(b) =~= escaped(a));
    } else {
        law_escaped(a, b.drop_last(), c);
        assert((a + b).drop_last() =~= a + b.drop_last());
        assert((a + b).last() == b.last());
        assert(escaped(a) + (escaped(b.drop_last()) + escaped_char(b.last())) =~= (escaped(a)
            + escaped(b.drop_last())) + escaped_char(b.last()));
    }
}

/// An argument stands in an exec line as it is where it has characters and all of them are safe; else
/// it stands there between single quotes.
pub proof fn law_shell_word(arg: Seq<char>)
    ensures
        quoted(arg) == seq!['\''] + escaped(arg) + seq!['\''],
        arg.len() > 0 && (forall|i: int| 0 <= i < arg.len() ==> !is_unsafe(#[trigger] arg[i]))
            ==> shell_word(arg) == arg,
        arg.len() == 0 || (exists|i: int| 0 <= i < arg.len() && is_unsafe(#[trigger] arg[i]))
            ==> shell_word(arg) == seq!['\''] + escaped(arg) + seq!['\''],
{
}

/// An exec line of no arguments is `exec`; one argument more adds a space and that argument, in front of
/// the newline.
pub proof fn law_exec_line_grows(args: Seq<Seq<char>>, arg: Seq<char>)
    ensures
        exec_line(Seq::<Seq<char>>::empty()) == seq!['e', 'x', 'e', 'c', '\n'],
        exec_line(args).len() > 0,
        exec_line(args).last() == '\n',
        exec_line(args.push(arg)) == exec_line(args).drop_last() + seq![' '] + shell_word(arg)
            + seq!['\n'],
{
    let none = Seq::<Seq<char>>::empty();
    assert(shell_text(none) =~= Seq::<char>::empty());
    assert(exec_line(none) =~= seq!['e', 'x', 'e', 'c', '\n']);
    assert(args.push(arg).drop_last() =~= args);
    assert(args.push(arg).last() == arg);
    assert(exec_line(args).drop_last() =~= seq!['e', 'x', 'e', 'c'] + shell_text(args));
    assert(exec_line(args.push(arg)) =~= exec_line(args).drop_last() + seq![' '] + shell_word(arg)
        + seq!['\n']);
}

/// The texts of some strings are as many as the strings, and each is that of its own string.
pub proof fn law_texts(args: Seq<&str>)
    ensures
        texts(args).len() == args.len(),
        forall|i: int| 0 <= i < args.len() ==> #[trigger] texts(args)[i] == args[i]@,
{
}

} // verus!
