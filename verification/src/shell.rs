//! How a shell splits a command into words, and the laws that quoting keeps to.
use crate::exec::{
    escaped, escaped_char, exec_line, is_unsafe, needs_quotes, push_quoted, quoted, shell_text,
    shell_word,
};
use crate::text::to_chars;
use vstd::prelude::*;
use vstd::string::*;

verus! {

/// Whether a POSIX shell may take the character `c`, outside quotes, for something other than a
/// part of a word: an operator, an expansion, a pattern, a quote, a comment, an assignment.
pub open spec fn is_shell_special(c: char) -> bool {
    ||| c == '|'
    ||| c == '&'
    ||| c == ';'
    ||| c == '<'
    ||| c == '>'
    ||| c == '('
    ||| c == ')'
    ||| c == '$'
    ||| c == '`'
    ||| c == '\\'
    ||| c == '"'
    ||| c == '\''
    ||| c == '*'
    ||| c == '?'
    ||| c == '['
    ||| c == '#'
    ||| c == '~'
    ||| c == '='
    ||| c == '!'
    ||| c == '{'
    ||| c == '}'
    ||| c == '^'
}

/// The word that is being read, empty where none has been started.
pub open spec fn so_far(word: Option<Seq<char>>) -> Seq<char> {
    match word {
        Some(w) => w,
        None => Seq::empty(),
    }
}

/// `first` in front of `rest`, where there is a rest.
pub open spec fn with_first(first: Seq<char>, rest: Option<Seq<Seq<char>>>) -> Option<
    Seq<Seq<char>>,
> {
    match rest {
        Some(words) => Some(seq![first] + words),
        None => None,
    }
}

/// The words that a shell reads from `s`, after `word` has been read, inside single quotes or
/// not. Single quotes make what is between them literal, a backslash the character behind it;
/// blanks part words; a newline ends the command. `None` where the quotes are not closed, where
/// more than one command stands, or where a special character asks for more than splitting.
pub open spec fn split(s: Seq<char>, word: Option<Seq<char>>, in_quotes: bool) -> Option<
    Seq<Seq<char>>,
>
    decreases s.len(),
{
    if s.len() == 0 {
        if in_quotes {
            None
        } else {
            match word {
                Some(w) => Some(seq![w]),
                None => Some(seq![]),
            }
        }
    } else {
        let c = s[0];
        let rest = s.drop_first();
        if in_quotes {
            if c == '\'' {
                split(rest, word, false)
            } else {
                split(rest, Some(so_far(word).push(c)), true)
            }
        } else if c == '\'' {
            split(rest, Some(so_far(word)), true)
        } else if c == '\\' {
            if rest.len() == 0 || rest[0] == '\n' {
                None
            } else {
                split(rest.drop_first(), Some(so_far(word).push(rest[0])), false)
            }
        } else if c == ' ' || c == '\t' {
            match word {
                Some(w) => with_first(w, split(rest, None, false)),
                None => split(rest, None, false),
            }
        } else if c == '\n' {
            if rest.len() == 0 {
                split(rest, word, false)
            } else {
                None
            }
        } else if is_shell_special(c) {
            None
        } else {
            split(rest, Some(so_far(word).push(c)), false)
        }
    }
}

/// Whether `word`, where it stands first in a command and is not quoted, may be taken for a part of
/// the shell's grammar: the words that POSIX reserves, and those that some shells reserve besides. (A
/// reserved word that is not made of letters has to be quoted in any case.)
pub open spec fn is_reserved(word: Seq<char>) -> bool {
    ||| word == "if"@
    ||| word == "then"@
    ||| word == "else"@
    ||| word == "elif"@
    ||| word == "fi"@
    ||| word == "do"@
    ||| word == "done"@
    ||| word == "case"@
    ||| word == "esac"@
    ||| word == "while"@
    ||| word == "until"@
    ||| word == "for"@
    ||| word == "in"@
    ||| word == "function"@
    ||| word == "select"@
    ||| word == "namespace"@
    ||| word == "time"@
    ||| word == "coproc"@
}

/// Whether a word that is not quoted ends in front of `c`.
pub open spec fn ends_token(c: char) -> bool {
    c == ' ' || c == '\t' || c == '\n'
}

/// What stands in `s` in front of the first blank or newline.
pub open spec fn leading_token(s: Seq<char>) -> Seq<char>
    decreases s.len(),
{
    if s.len() == 0 || ends_token(s[0]) {
        seq![]
    } else {
        seq![s[0]] + leading_token(s.drop_first())
    }
}

/// `s` without the blanks at its start.
pub open spec fn without_blanks(s: Seq<char>) -> Seq<char>
    decreases s.len(),
{
    if s.len() > 0 && (s[0] == ' ' || s[0] == '\t') {
        without_blanks(s.drop_first())
    } else {
        s
    }
}

/// The words of the command `line`, as a shell reads them; `None` where it reads more than the words
/// of one simple command.
pub open spec fn words(line: Seq<char>) -> Option<Seq<Seq<char>>> {
    if is_reserved(leading_token(without_blanks(line))) {
        None
    } else {
        split(line, None, false)
    }
}

/// `command` with a backslash in front where it starts with a reserved word, so that a shell takes
/// that for an ordinary one.
pub open spec fn unreserved(command: Seq<char>) -> Seq<char> {
    if is_reserved(leading_token(command)) {
        seq!['\\'] + command
    } else {
        command
    }
}

/// Reserved words are made of letters.
proof fn lemma_reserved_letters(word: Seq<char>)
    requires
        is_reserved(word),
    ensures
        word.len() > 0,
        forall|i: int| 0 <= i < word.len() ==> 'a' <= #[trigger] word[i] <= 'z',
{
    reveal_strlit("if");
    reveal_strlit("then");
    reveal_strlit("else");
    reveal_strlit("elif");
    reveal_strlit("fi");
    reveal_strlit("do");
    reveal_strlit("done");
    reveal_strlit("case");
    reveal_strlit("esac");
    reveal_strlit("while");
    reveal_strlit("until");
    reveal_strlit("for");
    reveal_strlit("in");
    reveal_strlit("function");
    reveal_strlit("select");
    reveal_strlit("namespace");
    reveal_strlit("time");
    reveal_strlit("coproc");
}

/// A word in front of a blank, a newline or the end is the leading token.
proof fn lemma_leading_token(word: Seq<char>, rest: Seq<char>)
    requires
        forall|i: int| 0 <= i < word.len() ==> !ends_token(#[trigger] word[i]),
        rest.len() == 0 || ends_token(rest[0]),
    ensures
        leading_token(word + rest) == word,
    decreases word.len(),
{
    let s = word + rest;
    if word.len() == 0 {
        assert(s =~= rest);
        assert(leading_token(s) =~= word);
    } else {
        let more = word.drop_first();
        assert(!ends_token(word[0]));
        assert(s.drop_first() =~= more + rest);
        assert forall|i: int| 0 <= i < more.len() implies !ends_token(#[trigger] more[i]) by {
            assert(more[i] == word[i + 1]);
        }
        lemma_leading_token(more, rest);
        assert(seq![word[0]] + more =~= word);
    }
}

/// A command whose first character is no letter and no blank starts with no reserved word.
proof fn lemma_not_reserved(line: Seq<char>)
    requires
        line.len() > 0,
        !('a' <= line[0] <= 'z'),
        !ends_token(line[0]),
    ensures
        words(line) == split(line, None, false),
{
    let token = leading_token(line);
    assert(token[0] == line[0]);
    if is_reserved(token) {
        lemma_reserved_letters(token);
    }
}

/// A command that starts with a plain word that is not reserved starts with no reserved word.
proof fn lemma_plain_not_reserved(word: Seq<char>, rest: Seq<char>)
    requires
        word.len() > 0,
        !is_reserved(word),
        forall|i: int| 0 <= i < word.len() ==> !is_unsafe(#[trigger] word[i]),
        rest.len() == 0 || ends_token(rest[0]),
    ensures
        leading_token(word + rest) == word,
        words(word + rest) == split(word + rest, None, false),
{
    assert forall|i: int| 0 <= i < word.len() implies !ends_token(#[trigger] word[i]) by {
        assert(!is_unsafe(word[i]));
    }
    lemma_leading_token(word, rest);
    assert((word + rest)[0] == word[0]);
    assert(without_blanks(word + rest) == word + rest);
}

/// Whether `word` is the text `text`.
fn is_text(word: &Vec<char>, text: &str) -> (r: bool)
    ensures
        r == (word@ == text@),
{
    let chars = to_chars(text);
    if word.len() != chars.len() {
        return false;
    }
    let mut i: usize = 0;
    while i < word.len()
        invariant
            i <= word@.len(),
            word@.len() == chars@.len(),
            chars@ == text@,
            forall|j: int| 0 <= j < i ==> word@[j] == chars@[j],
        decreases word@.len() - i,
    {
        if word[i] != chars[i] {
            return false;
        }
        i = i + 1;
    }
    assert(word@ =~= text@);
    true
}

/// Whether `word` is a reserved word.
fn reserved(word: &Vec<char>) -> (r: bool)
    ensures
        r == is_reserved(word@),
{
    is_text(word, "if")
        || is_text(word, "then")
        || is_text(word, "else")
        || is_text(word, "elif")
        || is_text(word, "fi")
        || is_text(word, "do")
        || is_text(word, "done")
        || is_text(word, "case")
        || is_text(word, "esac")
        || is_text(word, "while")
        || is_text(word, "until")
        || is_text(word, "for")
        || is_text(word, "in")
        || is_text(word, "function")
        || is_text(word, "select")
        || is_text(word, "namespace")
        || is_text(word, "time")
        || is_text(word, "coproc")
}

/// Whether `command` starts with a reserved word.
pub(crate) fn starts_reserved(command: &str) -> (r: bool)
    ensures
        r == is_reserved(leading_token(command@)),
{
    let chars = to_chars(command);
    let ghost s = command@;
    let mut word: Vec<char> = Vec::new();
    let mut i: usize = 0;
    assert(s.skip(0) =~= s);
    assert(word@ + leading_token(s) =~= leading_token(s));
    while i < chars.len() && !(chars[i] == ' ' || chars[i] == '\t' || chars[i] == '\n')
        invariant
            i <= chars@.len(),
            chars@ == s,
            word@ + leading_token(s.skip(i as int)) == leading_token(s),
        decreases chars@.len() - i,
    {
        proof {
            let rest = s.skip(i as int);
            assert(rest[0] == s[i as int]);
            assert(rest.drop_first() =~= s.skip(i + 1));
            assert(word@.push(rest[0]) + leading_token(rest.drop_first()) =~= word@
                + leading_token(rest));
        }
        word.push(chars[i]);
        i = i + 1;
    }
    proof {
        let rest = s.skip(i as int);
        if i < s.len() {
            assert(rest[0] == s[i as int]);
        }
        assert(word@ =~= word@ + leading_token(rest));
    }
    reserved(&word)
}

/// A text with no unsafe character in it is read as it stands.
proof fn lemma_split_plain(arg: Seq<char>, rest: Seq<char>, word: Option<Seq<char>>)
    requires
        forall|i: int| 0 <= i < arg.len() ==> !is_unsafe(#[trigger] arg[i]),
        arg.len() > 0 || word is Some,
    ensures
        split(arg + rest, word, false) == split(rest, Some(so_far(word) + arg), false),
    decreases arg.len(),
{
    if arg.len() == 0 {
        assert(arg + rest =~= rest);
        assert(so_far(word) + arg =~= so_far(word));
    } else {
        let c = arg[0];
        let more = arg.drop_first();
        let next = so_far(word).push(c);
        assert(!is_unsafe(c));
        assert((arg + rest).drop_first() =~= more + rest);
        assert forall|i: int| 0 <= i < more.len() implies !is_unsafe(#[trigger] more[i]) by {
            assert(more[i] == arg[i + 1]);
        }
        lemma_split_plain(more, rest, Some(next));
        assert(next + more =~= so_far(word) + arg);
    }
}

proof fn lemma_escaped_concat(a: Seq<char>, b: Seq<char>)
    ensures
        escaped(a + b) == escaped(a) + escaped(b),
    decreases b.len(),
{
    if b.len() == 0 {
        assert(a + b =~= a);
        assert(escaped(a) + escaped(b) =~= escaped(a));
    } else {
        lemma_escaped_concat(a, b.drop_last());
        assert((a + b).drop_last() =~= a + b.drop_last());
        assert((a + b).last() == b.last());
        assert(escaped(a) + (escaped(b.drop_last()) + escaped_char(b.last())) =~= (escaped(a)
            + escaped(b.drop_last())) + escaped_char(b.last()));
    }
}

/// What is escaped inside quotes is read as what was escaped, up to the closing quote.
proof fn lemma_split_escaped(s: Seq<char>, rest: Seq<char>, w: Seq<char>)
    ensures
        split(escaped(s) + seq!['\''] + rest, Some(w), true) == split(rest, Some(w + s), false),
    decreases s.len(),
{
    let tail = seq!['\''] + rest;
    assert(escaped(s) + seq!['\''] + rest =~= escaped(s) + tail);
    if s.len() == 0 {
        assert(escaped(s) + tail =~= tail);
        assert(tail.drop_first() =~= rest);
        assert(w + s =~= w);
    } else {
        let c = s[0];
        let one = seq![c];
        let more = s.drop_first();
        let w1 = w.push(c);
        assert(s =~= one + more);
        lemma_escaped_concat(one, more);
        assert(one.drop_last() =~= Seq::<char>::empty());
        assert(escaped(one.drop_last()) =~= Seq::<char>::empty());
        assert(escaped(one) =~= escaped_char(c));
        let after = escaped(more) + tail;
        let all = escaped(s) + tail;
        assert(all =~= escaped_char(c) + after);
        lemma_split_escaped(more, rest, w1);
        assert(escaped(more) + seq!['\''] + rest =~= after);
        assert(w1 + more =~= w + s);
        if c == '\'' {
            let s1 = all.drop_first();
            let s2 = s1.drop_first().drop_first();
            assert(s1[0] == '\\');
            assert(s1.drop_first()[0] == '\'');
            assert(s2[0] == '\'');
            assert(s2.drop_first() =~= after);
            assert(split(all, Some(w), true) == split(s1, Some(w), false));
            assert(split(s1, Some(w), false) == split(s2, Some(w1), false));
            assert(split(s2, Some(w1), false) == split(after, Some(w1), true));
        } else {
            assert(all.drop_first() =~= after);
        }
    }
}

/// What stands for an argument in an exec line is read as that argument.
proof fn lemma_split_word(arg: Seq<char>, rest: Seq<char>)
    ensures
        split(shell_word(arg) + rest, None, false) == split(rest, Some(arg), false),
{
    let empty = Seq::<char>::empty();
    assert(empty + arg =~= arg);
    if needs_quotes(arg) {
        let text = quoted(arg) + rest;
        assert(text.drop_first() =~= escaped(arg) + seq!['\''] + rest);
        lemma_split_escaped(arg, rest, empty);
    } else {
        lemma_split_plain(arg, rest, None);
    }
}

/// The text of some arguments starts with a space and the first of them.
pub proof fn lemma_shell_text_first(args: Seq<Seq<char>>)
    requires
        args.len() > 0,
    ensures
        shell_text(args) == seq![' '] + shell_word(args[0]) + shell_text(args.drop_first()),
    decreases args.len(),
{
    let front = args.drop_last();
    if args.len() == 1 {
        assert(front =~= Seq::<Seq<char>>::empty());
        assert(args.drop_first() =~= Seq::<Seq<char>>::empty());
        assert(shell_text(args) =~= seq![' '] + shell_word(args[0]) + shell_text(
            args.drop_first(),
        ));
    } else {
        lemma_shell_text_first(front);
        assert(front.drop_first() =~= args.drop_first().drop_last());
        assert(args.drop_first().last() == args.last());
        assert(shell_text(args) =~= seq![' '] + shell_word(args[0]) + shell_text(
            args.drop_first(),
        ));
    }
}

/// The arguments behind a word are read as the words behind it; `end` is what ends the command.
proof fn lemma_split_text(args: Seq<Seq<char>>, w: Seq<char>, end: Seq<char>)
    requires
        end == seq!['\n'] || end == Seq::<char>::empty(),
    ensures
        split(shell_text(args) + end, Some(w), false) == Some(seq![w] + args),
    decreases args.len(),
{
    let s = shell_text(args) + end;
    if args.len() == 0 {
        assert(s =~= end);
        assert(end.len() > 0 ==> end.drop_first() =~= Seq::<char>::empty());
        assert(split(Seq::empty(), Some(w), false) == Some(seq![w]));
        assert(seq![w] + args =~= seq![w]);
    } else {
        let more = args.drop_first();
        let rest = shell_text(more) + end;
        lemma_shell_text_first(args);
        assert(s.drop_first() =~= shell_word(args[0]) + rest);
        lemma_split_word(args[0], rest);
        lemma_split_text(more, args[0], end);
        assert(seq![w] + (seq![args[0]] + more) =~= seq![w] + args);
    }
}

/// A shell reads from an exec line the word `exec` and the very arguments that it was made of,
/// whatever they hold.
pub proof fn law_exec_line_words(args: Seq<Seq<char>>)
    ensures
        words(exec_line(args)) == Some(seq![seq!['e', 'x', 'e', 'c']] + args),
{
    let exec = seq!['e', 'x', 'e', 'c'];
    let rest = shell_text(args) + seq!['\n'];
    assert(exec_line(args) =~= exec + rest);
    assert(Seq::<char>::empty() + exec =~= exec);
    lemma_split_plain(exec, rest, None);
    lemma_split_text(args, exec, seq!['\n']);
    lemma_own_names();
    lemma_text_start(args, seq!['\n']);
    lemma_plain_not_reserved(exec, rest);
}

/// The command names that are written here are not reserved.
pub proof fn lemma_own_names()
    ensures
        !is_reserved(seq!['e', 'x', 'e', 'c']),
        !is_reserved("nqtail"@),
{
    reveal_strlit("nqtail");
    reveal_strlit("if");
    reveal_strlit("then");
    reveal_strlit("else");
    reveal_strlit("elif");
    reveal_strlit("fi");
    reveal_strlit("do");
    reveal_strlit("done");
    reveal_strlit("case");
    reveal_strlit("esac");
    reveal_strlit("while");
    reveal_strlit("until");
    reveal_strlit("for");
    reveal_strlit("in");
    reveal_strlit("function");
    reveal_strlit("select");
    reveal_strlit("namespace");
    reveal_strlit("time");
    reveal_strlit("coproc");
    let exec = seq!['e', 'x', 'e', 'c'];
    assert(exec[1] == 'x');
    assert("nqtail"@[1] == 'q');
}

/// What follows a word is a blank, or the end of the command.
proof fn lemma_text_start(args: Seq<Seq<char>>, end: Seq<char>)
    requires
        end == seq!['\n'] || end == Seq::<char>::empty(),
    ensures
        ({
            let rest = shell_text(args) + end;
            rest.len() == 0 || ends_token(rest[0])
        }),
{
    if args.len() > 0 {
        lemma_shell_text_first(args);
    } else {
        assert(shell_text(args) + end =~= end);
    }
}

/// A shell reads a command made of words as an exec line writes them as those words, whatever they
/// hold, where a first word that is reserved has a backslash in front.
pub proof fn law_command_words(args: Seq<Seq<char>>)
    requires
        args.len() > 0,
    ensures
        words(unreserved(shell_text(args).drop_first())) == Some(args),
{
    let more = args.drop_first();
    let none = Seq::<char>::empty();
    let rest = shell_text(more) + none;
    lemma_shell_text_first(args);
    assert(shell_text(args).drop_first() =~= shell_word(args[0]) + rest);
    lemma_split_word(args[0], rest);
    lemma_split_text(more, args[0], none);
    assert(seq![args[0]] + more =~= args);
    let first = args[0];
    let command = shell_text(args).drop_first();
    lemma_text_start(more, none);
    if needs_quotes(first) {
        assert(command[0] == '\'');
        lemma_not_reserved(command);
        assert(leading_token(command)[0] == '\'');
        if is_reserved(leading_token(command)) {
            lemma_reserved_letters(leading_token(command));
        }
    } else if is_reserved(first) {
        lemma_reserved_letters(first);
        assert forall|i: int| 0 <= i < first.len() implies !ends_token(#[trigger] first[i]) by {
            assert('a' <= first[i]);
        }
        lemma_leading_token(first, rest);
        let marked = seq!['\\'] + command;
        lemma_not_reserved(marked);
        let tail = first.drop_first();
        let start = seq![first[0]];
        assert(marked.drop_first() =~= command);
        assert(command.drop_first() =~= tail + rest);
        assert(Seq::<char>::empty().push(first[0]) =~= start);
        assert(split(marked, None, false) == split(tail + rest, Some(start), false));
        assert forall|i: int| 0 <= i < tail.len() implies !is_unsafe(#[trigger] tail[i]) by {
            assert(tail[i] == first[i + 1]);
        }
        lemma_split_plain(tail, rest, Some(start));
        assert(start + tail =~= first);
    } else {
        lemma_plain_not_reserved(first, rest);
    }
}

/// A shell reads a quoted text as one word, which is that text, whatever it holds.
pub proof fn law_quoted_word(s: Seq<char>)
    ensures
        words(quoted(s)) == Some(seq![s]),
{
    let none = Seq::<char>::empty();
    assert(quoted(s).drop_first() =~= escaped(s) + seq!['\''] + none);
    lemma_split_escaped(s, none, none);
    assert(none + s =~= s);
    lemma_not_reserved(quoted(s));
}

/// A shell reads a plain command name with a quoted text behind it as that name and that text.
pub proof fn law_command_with_quoted_argument(name: Seq<char>, s: Seq<char>)
    requires
        name.len() > 0,
        !is_reserved(name),
        forall|i: int| 0 <= i < name.len() ==> !is_unsafe(#[trigger] name[i]),
    ensures
        words(name + seq![' '] + quoted(s)) == Some(seq![name, s]),
{
    let none = Seq::<char>::empty();
    let rest = seq![' '] + quoted(s);
    assert(name + seq![' '] + quoted(s) =~= name + rest);
    assert(none + name =~= name);
    lemma_split_plain(name, rest, None);
    lemma_plain_not_reserved(name, rest);
    assert(rest.drop_first() =~= quoted(s));
    law_quoted_word(s);
    lemma_not_reserved(quoted(s));
    assert(seq![name] + seq![s] =~= seq![name, s]);
}

/// Two different argument lists have two different exec lines.
pub proof fn law_exec_lines_distinct(a: Seq<Seq<char>>, b: Seq<Seq<char>>)
    requires
        a != b,
    ensures
        exec_line(a) != exec_line(b),
{
    law_exec_line_words(a);
    law_exec_line_words(b);
    let exec = seq!['e', 'x', 'e', 'c'];
    assert((seq![exec] + a).drop_first() =~= a);
    assert((seq![exec] + b).drop_first() =~= b);
}

/// `s` in single quotes, with a single quote inside written as `'\''`.
pub fn sh_quote(s: &str) -> (r: String)
    ensures
        r@ == quoted(s@),
{
    let mut out = String::new();
    push_quoted(&mut out, s);
    assert(out@ =~= quoted(s@));
    out
}

/// Which words are reserved.
pub proof fn law_reserved_words(word: Seq<char>)
    ensures
        is_reserved(word) <==> {
            ||| word == "if"@
            ||| word == "then"@
            ||| word == "else"@
            ||| word == "elif"@
            ||| word == "fi"@
            ||| word == "do"@
            ||| word == "done"@
            ||| word == "case"@
            ||| word == "esac"@
            ||| word == "while"@
            ||| word == "until"@
            ||| word == "for"@
            ||| word == "in"@
            ||| word == "function"@
            ||| word == "select"@
            ||| word == "namespace"@
            ||| word == "time"@
            ||| word == "coproc"@
        },
{
}

/// The leading token of a text is all that stands in front of its first blank or newline.
pub proof fn law_leading_token(s: Seq<char>)
    ensures
        ({
            let token = leading_token(s);
            &&& token.len() <= s.len()
            &&& token == s.take(token.len() as int)
            &&& forall|i: int|
                0 <= i < token.len() ==> #[trigger] token[i] != ' ' && token[i] != '\t' && token[i]
                    != '\n'
            &&& token.len() < s.len() ==> s[token.len() as int] == ' ' || s[token.len() as int] == '\t'
                || s[token.len() as int] == '\n'
        }),
    decreases s.len(),
{
    let token = leading_token(s);
    if s.len() > 0 && !ends_token(s[0]) {
        let rest = s.drop_first();
        let more = leading_token(rest);
        law_leading_token(rest);
        assert(token =~= s.take(token.len() as int)) by {
            assert forall|i: int| 0 <= i < token.len() implies token[i] == s[i] by {
                if i > 0 {
                    assert(token[i] == more[i - 1]);
                    assert(more[i - 1] == rest[i - 1]);
                }
            }
        }
        assert forall|i: int| 0 <= i < token.len() implies #[trigger] token[i] != ' ' && token[i]
            != '\t' && token[i] != '\n' by {
            if i > 0 {
                assert(token[i] == more[i - 1]);
            }
        }
        if token.len() < s.len() {
            assert(s[token.len() as int] == rest[more.len() as int]);
        }
    } else {
        assert(token =~= s.take(0));
    }
}

/// A command is changed only where it starts with a reserved word, and then by a backslash in front.
pub proof fn law_unreserved(command: Seq<char>)
    ensures
        is_reserved(leading_token(command)) ==> unreserved(command) == seq!['\\'] + command,
        !is_reserved(leading_token(command)) ==> unreserved(command) == command,
{
}

} // verus!
