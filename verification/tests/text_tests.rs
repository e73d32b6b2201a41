use hostctl::text::{
    contains, decimal, join, lines, replace, signed_decimal, split_char, split_whitespace, trim,
};

fn strings(v: &[&str]) -> Vec<String> {
    v.iter().map(|s| s.to_string()).collect()
}

#[test]
fn trim_removes_whitespace_at_both_ends() {
    assert_eq!(trim("  web1 \t"), "web1");
    assert_eq!(trim("\u{3000}a b\u{a0}"), "a b");
    assert_eq!(trim("   "), "");
    assert_eq!(trim(""), "");
}

#[test]
fn trim_is_idempotent_on_examples() {
    for s in [" a ", "a", "\n x y \r", ""] {
        let once = trim(s);
        assert_eq!(trim(&once), once);
    }
}

#[test]
fn split_keeps_empty_pieces() {
    assert_eq!(split_char("a,,b,", ','), strings(&["a", "", "b", ""]));
    assert_eq!(split_char("", ','), strings(&[""]));
    assert_eq!(split_char("abc", ','), strings(&["abc"]));
}

#[test]
fn split_whitespace_drops_runs() {
    assert_eq!(split_whitespace("  -p 22\t -v  "), strings(&["-p", "22", "-v"]));
    assert_eq!(split_whitespace("   "), Vec::<String>::new());
}

#[test]
fn lines_follow_str_lines() {
    for s in ["a\nb", "a\nb\n", "a\r\nb\r\n", "", "\n", "x\n\ny", "only", "a\r", "foo\r\nbar\n\nbaz\r", "\r\n\r"] {
        let expected: Vec<String> = s.lines().map(|l| l.to_string()).collect();
        assert_eq!(lines(s), expected, "for {:?}", s);
    }
}

#[test]
fn replace_follows_str_replace() {
    assert_eq!(replace("rsync HOST:/tmp HOST", "HOST", "web1"), "rsync web1:/tmp web1");
    assert_eq!(replace("aaa", "aa", "b"), "ba");
    assert_eq!(replace("no match", "HOST", "x"), "no match");
    assert_eq!(replace("a,b,c", ",", ""), "abc");
}

#[test]
fn contains_finds_substrings() {
    assert!(contains("ssh HOST", "HOST"));
    assert!(!contains("ssh host", "HOST"));
    assert!(contains("abc", ""));
}

#[test]
fn join_puts_separator_between() {
    assert_eq!(join(&strings(&["a", "b", "c"]), ", "), "a, b, c");
    assert_eq!(join(&strings(&["a"]), ", "), "a");
    assert_eq!(join(&Vec::new(), ", "), "");
}

#[test]
fn decimal_renders_numbers() {
    assert_eq!(decimal(0), "0");
    assert_eq!(decimal(42), "42");
    assert_eq!(decimal(18446744073709551615), "18446744073709551615");
    assert_eq!(signed_decimal(-1), "-1");
    assert_eq!(signed_decimal(i32::MIN), "-2147483648");
    assert_eq!(signed_decimal(255), "255");
}
