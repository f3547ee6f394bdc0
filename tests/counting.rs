use cl::classify::{count, count_everything, count_in, count_normal, line_kind, LineKind};
use cl::count::Count;
use cl::language::{get_language, get_language_config, Language, LineConfig};
use cl::lines::{line_count, ByteLines};

fn tally(code: u32, blank: u32, comments: u32, total: u32) -> Count {
    Count { code, blank, comments, total }
}

#[test]
fn c_file_with_code_comment_and_blank() {
    let r = count("src/main.c", b"int x;\n// comment\n\n");
    assert_eq!(r, Some(tally(1, 1, 1, 3)));
}

#[test]
fn python_block_comment_closer_is_comment() {
    // Opener, two inner lines and closer are comment lines; the identical
    // closing delimiter ends the block rather than opening another.
    let r = count("x.py", b"x = 1\n'''\nblock\ncomment\n'''\ny = 2\n");
    assert_eq!(r, Some(tally(2, 0, 4, 6)));
}

#[test]
fn html_code_before_opener_is_code() {
    let r = count("index.html", b"code <!-- start code<!-- -->\n");
    assert_eq!(r, Some(tally(1, 0, 0, 1)));
}

#[test]
fn html_line_inside_delimiters_only_is_comment() {
    let r = count("index.html", b"<!-- start code<!-- -->\n");
    assert_eq!(r, Some(tally(0, 0, 1, 1)));
}

#[test]
fn html_code_after_closer_is_code() {
    let r = count("page.html", b"<!-- a --> b\n<p>\n");
    assert_eq!(r, Some(tally(2, 0, 0, 2)));
}

#[test]
fn block_comment_spans_lines() {
    let r = count("a.rs", b"fn f() {} /* start\nmiddle\nend */\nlet x = 1;\n");
    assert_eq!(r, Some(tally(2, 0, 2, 4)));
}

#[test]
fn block_opened_and_closed_twice_on_one_line() {
    let r = count("a.c", b"/* a */ /* b */\n/* a */ x /* b */\n");
    assert_eq!(r, Some(tally(1, 0, 1, 2)));
}

#[test]
fn line_marker_that_starts_block_is_not_line_comment() {
    // In Assembly "#" marks a line comment; "/*" opens a block.
    let r = count("boot.s", b"# note\n/* block */\nmov\n");
    assert_eq!(r, Some(tally(1, 0, 2, 3)));
}

#[test]
fn makefile_never_enters_block_state() {
    let r = count("Makefile", b"/* not a block\nall:\n# comment\n\t\n");
    assert_eq!(r, Some(tally(2, 1, 1, 4)));
}

#[test]
fn text_file_has_no_comments() {
    let r = count("notes.txt", b"// hello\n# there\n/* x */\n");
    assert_eq!(r, Some(tally(3, 0, 0, 3)));
}

#[test]
fn spaces_and_tabs_are_blank_everywhere() {
    for name in ["a.c", "a.py", "a.html", "Makefile", "a.md", "a.unknownext"] {
        let r = count(name, b"  \t \n\t\t\n").unwrap();
        assert_eq!(r, tally(0, 2, 0, 2), "{}", name);
    }
    // Inside an open block comment as well.
    let r = count("a.c", b"/* open\n   \t\nclose */\n").unwrap();
    assert_eq!(r, tally(0, 1, 2, 3));
}

#[test]
fn blank_line_keeps_block_state() {
    let r = line_kind(b" \t ", None, Some((b"/*".as_slice(), b"*/".as_slice())), true);
    assert_eq!(r, (LineKind::Blank, true));
}

#[test]
fn unicode_whitespace_is_trimmed() {
    let r = count("a.c", "\u{00A0}\u{3000}\n\u{2003}x\u{0085}\n".as_bytes());
    assert_eq!(r, Some(tally(1, 1, 0, 2)));
}

#[test]
fn invalid_utf8_counts_as_zero() {
    let r = count("a.c", b"int x;\n\xff\xfe\n");
    assert_eq!(r, Some(tally(0, 0, 0, 0)));
}

#[test]
fn empty_file_counts_nothing() {
    assert_eq!(count("a.c", b""), Some(tally(0, 0, 0, 0)));
}

#[test]
fn last_line_without_newline_is_counted() {
    assert_eq!(count("a.go", b"package main\n// x"), Some(tally(1, 0, 1, 2)));
}

#[test]
fn carriage_return_is_whitespace_not_a_separator() {
    assert_eq!(count("a.c", b"x;\r\n\r\n"), Some(tally(1, 1, 0, 2)));
}

#[test]
fn path_without_file_name_is_refused() {
    assert_eq!(count("/", b"x\n"), None);
    assert_eq!(get_language(".."), None);
}

#[test]
fn totals_add_up_on_mixed_input() {
    let inputs: [&[u8]; 4] = [
        b"a\n\n/* b */\n// c\n  \n",
        b"/*\n*/ x\n'''\n",
        b"#\n#x\n<!-- -->\n",
        b"\n\n\n",
    ];
    for name in ["a.c", "a.py", "a.html", "Makefile", "a.s"] {
        for bytes in inputs.iter() {
            let c = count(name, bytes).unwrap();
            assert_eq!(c.total, c.code + c.blank + c.comments);
        }
    }
}

#[test]
fn count_normal_with_explicit_syntax() {
    let r = count_normal(b"-- x\ny\n{- a\nb -}\n", Some("--"), Some(("{-", "-}")));
    assert_eq!(r, tally(1, 0, 3, 4));
}

#[test]
fn empty_delimiters_never_match() {
    let r = count_normal(b"a\n", None, Some(("", "")));
    assert_eq!(r, tally(1, 0, 0, 1));
}

#[test]
fn count_everything_sums_comments_once_per_marker() {
    let r = count_everything(b"# a\n// b\ncode\n\n", &["#", "//"], &[]);
    assert_eq!(r, tally(1, 1, 2, 4));
}

#[test]
fn count_everything_caps_overlapping_comments() {
    let r = count_everything(b"// a\n/* b */\n", &["//", "/"], &[("/*", "*/")]);
    assert_eq!(r, tally(0, 0, 2, 2));
}

#[test]
fn count_everything_with_no_syntax_is_all_code() {
    let r = count_everything(b"x\n\ny\n", &[], &[]);
    assert_eq!(r, tally(2, 1, 0, 3));
}

#[test]
fn count_in_uses_language_profile() {
    assert_eq!(count_in(b"# x\ny\n", Language::Python), tally(1, 0, 1, 2));
    assert_eq!(count_in(b"# x\ny\n", Language::Rust), tally(2, 0, 0, 2));
}

#[test]
fn languages_from_names() {
    assert_eq!(get_language("src/main.rs"), Some(Language::Rust));
    assert_eq!(get_language("a/b/c.C"), Some(Language::C));
    assert_eq!(get_language("x.cc"), Some(Language::Cpp));
    assert_eq!(get_language("x.CPP"), Some(Language::Cpp));
    assert_eq!(get_language("x.hpp"), Some(Language::Header));
    assert_eq!(get_language("x.h"), Some(Language::Header));
    assert_eq!(get_language("setup.PY"), Some(Language::Python));
    assert_eq!(get_language("Main.java"), Some(Language::Java));
    assert_eq!(get_language("app.js"), Some(Language::Javascript));
    assert_eq!(get_language("main.go"), Some(Language::Go));
    assert_eq!(get_language("index.html"), Some(Language::Html));
    assert_eq!(get_language("boot.asm"), Some(Language::Assembly));
    assert_eq!(get_language("boot.S"), Some(Language::Assembly));
    assert_eq!(get_language("notes.txt"), Some(Language::Text));
    assert_eq!(get_language("README.md"), Some(Language::Markdown));
    assert_eq!(get_language("README"), Some(Language::Unknown));
    assert_eq!(get_language("x.rs.bak"), Some(Language::Unknown));
}

#[test]
fn makefile_in_name_overrides_extension() {
    assert_eq!(get_language("Makefile"), Some(Language::Makefile));
    assert_eq!(get_language("dir/GNUmakefile"), Some(Language::Makefile));
    assert_eq!(get_language("Makefile.am"), Some(Language::Makefile));
    assert_eq!(get_language("makefile.c"), Some(Language::Makefile));
}

#[test]
fn language_names() {
    assert_eq!(Language::Cpp.to_string(), "C++");
    assert_eq!(Language::Text.to_string(), "Plain text");
    assert_eq!(Language::Markdown.to_string(), "Markdown");
    assert_eq!(Language::Unknown.to_string(), "Unknown");
}

#[test]
fn profile_table() {
    match get_language_config(&Language::Python) {
        LineConfig::Normal { single, multi } => {
            assert_eq!(single, Some("#"));
            assert_eq!(multi, Some(("'''", "'''")));
        }
        LineConfig::Everything { .. } => panic!("unexpected"),
    }
    match get_language_config(&Language::Makefile) {
        LineConfig::Normal { single, multi } => {
            assert_eq!(single, Some("#"));
            assert_eq!(multi, None);
        }
        LineConfig::Everything { .. } => panic!("unexpected"),
    }
    match get_language_config(&Language::Html) {
        LineConfig::Normal { single, multi } => {
            assert_eq!(single, None);
            assert_eq!(multi, Some(("<!--", "-->")));
        }
        LineConfig::Everything { .. } => panic!("unexpected"),
    }
}

#[test]
fn byte_lines_split_on_newline() {
    let buf: &[u8] = b"a\n\nbc\nd";
    let mut it = ByteLines(buf).lines();
    assert_eq!(it.next(), Some(&b"a"[..]));
    assert_eq!(it.next(), Some(&b""[..]));
    assert_eq!(it.next(), Some(&b"bc"[..]));
    assert_eq!(it.next(), Some(&b"d"[..]));
    assert_eq!(it.next(), None);
    let mut empty = ByteLines(&b""[..]).lines();
    assert_eq!(empty.next(), None);
    let mut one = ByteLines(&b"x\n"[..]).lines();
    assert_eq!(one.next(), Some(&b"x"[..]));
    assert_eq!(one.next(), None);
}

#[test]
fn directory_name_does_not_decide_language() {
    assert_eq!(get_language("makefiles/main.rs"), Some(Language::Rust));
    assert_eq!(get_language("src.py/README.md"), Some(Language::Markdown));
}

#[test]
fn non_ascii_outside_comments_is_code() {
    assert_eq!(count("a.c", "é /* x */\n".as_bytes()), Some(tally(1, 0, 0, 1)));
    assert_eq!(count("a.c", "/* a */ é\n".as_bytes()), Some(tally(1, 0, 0, 1)));
    assert_eq!(count("a.c", "/* é */\n".as_bytes()), Some(tally(0, 0, 1, 1)));
    assert_eq!(count("a.c", "/* a */ \u{3000}\n".as_bytes()), Some(tally(0, 0, 1, 1)));
}

#[test]
fn closer_followed_by_non_ascii_closes_block() {
    let r = count("page.html", "<!-- x -->é\nnext\n".as_bytes());
    assert_eq!(r, Some(tally(2, 0, 0, 2)));
    let r = count("page.html", "<!-- x -->\u{3000}\nnext\n".as_bytes());
    assert_eq!(r, Some(tally(1, 0, 1, 2)));
}

#[test]
fn line_count_matches_lines() {
    assert_eq!(line_count(b""), 0);
    assert_eq!(line_count(b"a"), 1);
    assert_eq!(line_count(b"a\n"), 1);
    assert_eq!(line_count(b"a\n\nb"), 3);
}
