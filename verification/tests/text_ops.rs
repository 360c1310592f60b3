use rusty_notes::text::{
    contains, ends_with, lines, replace_all, replace_first, same_text, split_char, starts_with,
    trim, trim_class, trim_end_class, trim_end_matches, trim_start_class, CharClass,
};

#[test]
fn trim_removes_unicode_whitespace() {
    assert_eq!(trim("  hello \n"), "hello");
    assert_eq!(trim("\u{3000}x\u{a0}"), "x");
    assert_eq!(trim("   "), "");
    assert_eq!(trim(&trim(" a b ")), "a b");
}

#[test]
fn trim_by_char() {
    assert_eq!(trim_class("//notes//", CharClass::Exactly('/')), "notes");
    assert_eq!(trim_start_class("##title", CharClass::Exactly('#')), "title");
    assert_eq!(trim_end_class("text \n\t", CharClass::Whitespace), "text");
}

#[test]
fn prefixes_suffixes_and_occurrences() {
    assert!(starts_with("touch::a", "touch::"));
    assert!(!starts_with("touc", "touch::"));
    assert!(ends_with("a.md", ".md"));
    assert!(!ends_with("a.md ", ".md"));
    assert!(contains("/x/subusers/y.md", "/subusers/"));
    assert!(!contains("/x/users/y.md", "/subusers/"));
    assert!(same_text("css/notes.css", "css/notes.css"));
    assert!(!same_text("css/notes.css", "css/notes.cs"));
}

#[test]
fn replacing() {
    assert_eq!(replace_all("a\"b\"c", "\"", "&quot;"), "a&quot;b&quot;c");
    assert_eq!(replace_all("aaa", "aa", "b"), "ba");
    assert_eq!(replace_all("abc", "x", "y"), "abc");
    assert_eq!(replace_first("a/b/a/b", "a", ""), "/b/a/b");
    assert_eq!(replace_first("abc", "", "x"), "xabc");
    assert_eq!(replace_first("abc", "z", "x"), "abc");
    assert_eq!(trim_end_matches("x</pre>\n</pre>\n", "</pre>\n"), "x");
    assert_eq!(trim_end_matches("x", ""), "x");
}

#[test]
fn splitting_and_lines() {
    assert_eq!(split_char("a:b::c", ':'), vec!["a", "b", "", "c"]);
    assert_eq!(split_char("", ':'), vec![""]);
    assert_eq!(split_char("a/", '/'), vec!["a", ""]);
    assert_eq!(lines("a\nb\r\nc"), vec!["a", "b", "c"]);
    assert_eq!(lines("a\n"), vec!["a"]);
    assert_eq!(lines(""), Vec::<String>::new());
    assert_eq!(lines("a\n\nb\r"), vec!["a", "", "b\r"]);
    // the standard library agrees
    for s in ["a\nb\r\nc", "a\n", "", "a\n\nb\r", "\n", "x\r\n\r\n"] {
        let ours = lines(s);
        let std_lines: Vec<String> = s.lines().map(|l| l.to_string()).collect();
        assert_eq!(ours, std_lines);
    }
}

#[test]
fn split_then_join_gives_back_the_string() {
    for s in ["a:b::c", "", ":", "abc", "::x::"] {
        assert_eq!(split_char(s, ':').join(":"), s);
    }
}

#[test]
fn whitespace_agrees_with_std() {
    for u in 0u32..0x3100 {
        if let Some(c) = char::from_u32(u) {
            let s = c.to_string();
            assert_eq!(trim(&s).is_empty(), c.is_whitespace(), "U+{:04X}", u);
        }
    }
}

#[test]
fn string_operations_agree_with_std() {
    let samples = ["", "a", "aaa", "abcabc", " x y ", "/a//b/", "é\"ü\"", "</pre>\n</pre>\n", "\r\n\r"];
    let patterns = ["a", "aa", "b", "/", "\"", "</pre>\n", "\r", "é"];
    for s in samples {
        assert_eq!(trim(s), s.trim());
        assert_eq!(trim_class(s, CharClass::Exactly('/')), s.trim_matches('/'));
        assert_eq!(trim_start_class(s, CharClass::Exactly('/')), s.trim_start_matches('/'));
        assert_eq!(trim_end_class(s, CharClass::Whitespace), s.trim_end());
        let pieces: Vec<String> = s.split('/').map(|p| p.to_string()).collect();
        assert_eq!(split_char(s, '/'), pieces);
        for p in patterns {
            assert_eq!(replace_all(s, p, "#"), s.replace(p, "#"));
            assert_eq!(replace_first(s, p, "#"), s.replacen(p, "#", 1));
            assert_eq!(trim_end_matches(s, p), s.trim_end_matches(p));
            assert_eq!(starts_with(s, p), s.starts_with(p));
            assert_eq!(ends_with(s, p), s.ends_with(p));
            assert_eq!(contains(s, p), s.contains(p));
        }
    }
}
