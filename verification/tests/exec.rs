use nq::exec::{build_exec_line, is_safe_byte, write_exec_line};
use nq::shell::sh_quote;

#[test]
fn test_simple_args() {
    let mut buf = Vec::new();
    write_exec_line(&mut buf, &["make", "clean"]).unwrap();
    assert_eq!(String::from_utf8(buf).unwrap(), "exec make clean\n");
}

#[test]
fn test_arg_with_space() {
    let mut buf = Vec::new();
    write_exec_line(&mut buf, &["echo", "hello world"]).unwrap();
    assert_eq!(String::from_utf8(buf).unwrap(), "exec echo 'hello world'\n");
}

#[test]
fn test_arg_with_single_quote() {
    let mut buf = Vec::new();
    write_exec_line(&mut buf, &["echo", "it's fine"]).unwrap();
    assert_eq!(
        String::from_utf8(buf).unwrap(),
        "exec echo 'it'\\''s fine'\n"
    );
}

#[test]
fn test_empty_arg() {
    let mut buf = Vec::new();
    write_exec_line(&mut buf, &["echo", ""]).unwrap();
    assert_eq!(String::from_utf8(buf).unwrap(), "exec echo ''\n");
}

#[test]
fn test_special_chars_mixed() {
    let mut buf = Vec::new();
    write_exec_line(&mut buf, &["echo", "file$PATH", "normal"]).unwrap();
    assert_eq!(
        String::from_utf8(buf).unwrap(),
        "exec echo 'file$PATH' normal\n"
    );
}

#[test]
fn test_multiple_quoted_args() {
    let mut buf = Vec::new();
    write_exec_line(&mut buf, &["wget", "http://example.com/file?q=a&b=c"]).unwrap();
    assert_eq!(
        String::from_utf8(buf).unwrap(),
        "exec wget 'http://example.com/file?q=a&b=c'\n"
    );
}

#[test]
fn test_backslash_and_backtick() {
    let mut buf = Vec::new();
    write_exec_line(&mut buf, &["echo", "a\\b", "c`d"]).unwrap();
    assert_eq!(String::from_utf8(buf).unwrap(), "exec echo 'a\\b' 'c`d'\n");
}

#[test]
fn test_shell_roundtrip() {
    let mut buf = Vec::new();
    write_exec_line(&mut buf, &["echo", "normal", "quoted arg", "it's"]).unwrap();
    let line = String::from_utf8(buf).unwrap();
    assert_eq!(line, "exec echo normal 'quoted arg' 'it'\\''s'\n");
}

#[test]
fn test_args_with_deep_paths() {
    let mut buf = Vec::new();
    write_exec_line(&mut buf, &["./configure", "--prefix=/usr/local"]).unwrap();
    // Slashes, dots, hyphens are safe, but `=` is unsafe.
    assert_eq!(
        String::from_utf8(buf).unwrap(),
        "exec ./configure '--prefix=/usr/local'\n"
    );
}

#[test]
fn test_dollar_brace_in_arg() {
    let mut buf = Vec::new();
    write_exec_line(&mut buf, &["echo", "${HOME}"]).unwrap();
    assert_eq!(String::from_utf8(buf).unwrap(), "exec echo '${HOME}'\n");
}

#[test]
fn test_semicolon_in_arg() {
    let mut buf = Vec::new();
    write_exec_line(&mut buf, &["echo", "a;b"]).unwrap();
    assert_eq!(String::from_utf8(buf).unwrap(), "exec echo 'a;b'\n");
}

#[test]
fn safe_bytes() {
    let unsafe_bytes = " !\"#$&'()*;<=>?[\\]^`{|}~\x7f";
    for b in 0..=255u8 {
        let safe = b >= 0x21 && !unsafe_bytes.as_bytes().contains(&b);
        assert_eq!(is_safe_byte(b), safe, "byte {}", b);
    }
}

#[test]
fn no_arguments() {
    assert_eq!(build_exec_line(&[]), "exec\n");
    let mut buf = vec![7u8];
    write_exec_line(&mut buf, &[]).unwrap();
    assert_eq!(buf, vec![7, 101, 120, 101, 99, 10]);
}

#[test]
fn built_and_written_lines_agree() {
    let cases: [&[&str]; 6] = [
        &["make", "clean"],
        &["echo", "it's fine", ""],
        &["echo", "caf\u{e9}"],
        &["echo", "caf\u{e9} \u{4e2d}\u{6587}", "\u{1f600}'\u{1f600}"],
        &["a\nb", "\t", "'''"],
        &["%+,-./09:@AZ_az"],
    ];
    for args in cases {
        let mut buf = Vec::new();
        write_exec_line(&mut buf, args).unwrap();
        assert_eq!(String::from_utf8(buf).unwrap(), build_exec_line(args));
    }
}

#[test]
fn text_beyond_ascii_is_kept() {
    assert_eq!(build_exec_line(&["echo", "caf\u{e9}"]), "exec echo caf\u{e9}\n");
    assert_eq!(build_exec_line(&["echo", "caf\u{e9} x"]), "exec echo 'caf\u{e9} x'\n");
}

#[test]
fn newline_is_quoted() {
    assert_eq!(build_exec_line(&["a\nb"]), "exec 'a\nb'\n");
}

#[test]
fn quoting() {
    assert_eq!(sh_quote(",18c4f3a7e89.12345"), "',18c4f3a7e89.12345'");
    assert_eq!(sh_quote(""), "''");
    assert_eq!(sh_quote("a'b"), "'a'\\''b'");
}

#[test]
fn different_commands_have_different_lines() {
    let commands: [&[&str]; 7] =
        [&[], &[""], &["a", "b"], &["a b"], &["a  b"], &["'a'", "b"], &["a", "b", ""]];
    for (i, a) in commands.iter().enumerate() {
        for (j, b) in commands.iter().enumerate() {
            assert_eq!(build_exec_line(a) == build_exec_line(b), i == j);
        }
    }
}
