use please::text::{
    append_chars, chars_of, contains_exec, ends_with_exec, is_space_exec, join_from_exec,
    lines_exec, matches_at_exec, same_text, split_exec, starts_with_exec, string_of,
    strip_repeated_prefix_exec, trim_by_exec, Strip,
};

fn cs(s: &str) -> Vec<char> {
    s.chars().collect()
}

#[test]
fn characters_round_trip() {
    for s in ["", "abc", "héllo wörld", "日本語\n", "a\u{1F600}b"] {
        assert_eq!(chars_of(s), cs(s));
        assert_eq!(string_of(&chars_of(s)), s);
    }
    assert_eq!(string_of(&vec!['x', 'y']), "xy");
    assert_eq!(chars_of("xy"), vec!['x', 'y']);
}

#[test]
fn append_adds_at_the_end() {
    let mut out = cs("ab");
    append_chars(&mut out, &cs("cd"));
    assert_eq!(out, cs("abcd"));
    append_chars(&mut out, &cs(""));
    assert_eq!(out, cs("abcd"));
}

#[test]
fn white_space_is_what_the_standard_library_says() {
    let mut c: u32 = 0;
    while c <= 0x3100 {
        if let Some(ch) = char::from_u32(c) {
            assert_eq!(is_space_exec(ch), ch.is_whitespace(), "U+{:04X}", c);
        }
        c += 1;
    }
}

#[test]
fn trim_takes_both_ends() {
    assert_eq!(trim_by_exec(&cs("  a b \t\r\n"), Strip::Whitespace), cs("a b"));
    assert_eq!(trim_by_exec(&cs(" \u{a0}\u{3000} "), Strip::Whitespace), cs(""));
    assert_eq!(trim_by_exec(&cs(""), Strip::Whitespace), cs(""));
    assert_eq!(trim_by_exec(&cs("\"\"a\"b\"\""), Strip::Quote), cs("a\"b"));
    assert_eq!(trim_by_exec(&cs(" \"a\" "), Strip::Quote), cs(" \"a\" "));
    assert_eq!(trim_by_exec(&cs("\"\"\""), Strip::Quote), cs(""));
}

#[test]
fn matching_and_searching() {
    let s = cs("please build it");
    assert!(matches_at_exec(&s, 7, &cs("build")));
    assert!(!matches_at_exec(&s, 6, &cs("build")));
    assert!(!matches_at_exec(&s, 13, &cs("it!")));
    assert!(matches_at_exec(&s, 15, &cs("")));
    assert!(!matches_at_exec(&s, 16, &cs("")));
    assert!(starts_with_exec(&s, &cs("please")));
    assert!(!starts_with_exec(&s, &cs("lease")));
    assert!(ends_with_exec(&s, &cs(" it")));
    assert!(!ends_with_exec(&cs("it"), &cs(" it")));
    assert!(contains_exec(&s, &cs("se bu")));
    assert!(contains_exec(&s, &cs("it")));
    assert!(contains_exec(&s, &cs("")));
    assert!(!contains_exec(&s, &cs("built")));
    assert!(!contains_exec(&cs(""), &cs("a")));
    assert!(same_text(&cs("abc"), &cs("abc")));
    assert!(!same_text(&cs("abc"), &cs("abd")));
    assert!(!same_text(&cs("abc"), &cs("ab")));
}

#[test]
fn repeated_prefix_is_stripped() {
    assert_eq!(strip_repeated_prefix_exec(&cs("ababac"), &cs("ab")), cs("ac"));
    assert_eq!(strip_repeated_prefix_exec(&cs("abab"), &cs("ab")), cs(""));
    assert_eq!(strip_repeated_prefix_exec(&cs("xab"), &cs("ab")), cs("xab"));
    assert_eq!(strip_repeated_prefix_exec(&cs("abc"), &cs("")), cs("abc"));
}

#[test]
fn split_and_join() {
    assert_eq!(split_exec(&cs(""), ';'), vec![cs("")]);
    assert_eq!(split_exec(&cs("a;b;;c;"), ';'), vec![cs("a"), cs("b"), cs(""), cs("c"), cs("")]);
    let pieces = split_exec(&cs("a b  c"), ' ');
    assert_eq!(join_from_exec(&pieces, 0, ' '), cs("a b  c"));
    assert_eq!(join_from_exec(&pieces, 1, ' '), cs("b  c"));
    assert_eq!(join_from_exec(&pieces, 3, '-'), cs("c"));
    assert_eq!(join_from_exec(&pieces, 4, ' '), cs(""));
}

#[test]
fn lines_end_at_line_feeds() {
    assert_eq!(lines_exec(&cs("")), Vec::<Vec<char>>::new());
    assert_eq!(lines_exec(&cs("a")), vec![cs("a")]);
    assert_eq!(lines_exec(&cs("a\n")), vec![cs("a")]);
    assert_eq!(lines_exec(&cs("a\n\nb")), vec![cs("a"), cs(""), cs("b")]);
    assert_eq!(lines_exec(&cs("\n")), vec![cs("")]);
    assert_eq!(lines_exec(&cs("a\n\n")), vec![cs("a"), cs("")]);
}
