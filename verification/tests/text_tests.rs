use file_hosting::numbers::{decimal_text, parse_usize};
use file_hosting::paths::{extension_of, file_name_of, push_path};
use file_hosting::text::{
    contains_text, contains_word, is_whitespace, join_with, same_text, spaced_words, split_words,
    trim,
};

fn strings(v: &[&str]) -> Vec<String> {
    v.iter().map(|s| s.to_string()).collect()
}

#[test]
fn split_words_skips_runs_of_whitespace() {
    assert_eq!(split_words("  upload  a.txt\tb \n"), strings(&["upload", "a.txt", "b"]));
    assert_eq!(split_words(""), Vec::<String>::new());
    assert_eq!(split_words(" \n\t "), Vec::<String>::new());
    assert_eq!(split_words("one"), strings(&["one"]));
}

#[test]
fn split_words_follows_unicode_whitespace() {
    assert_eq!(split_words("a\u{3000}b\u{85}c\u{a0}d"), strings(&["a", "b", "c", "d"]));
    assert!(is_whitespace('\u{2028}'));
    assert!(!is_whitespace('\u{200b}'));
    assert!(!is_whitespace('x'));
}

#[test]
fn trim_strips_both_ends() {
    assert_eq!(trim("  connect \n"), "connect");
    assert_eq!(trim("\n"), "");
    assert_eq!(trim("a b"), "a b");
}

#[test]
fn text_equality_and_membership() {
    assert!(same_text("-p", "-p"));
    assert!(!same_text("-p", "-x"));
    assert!(!same_text("ab", "abc"));
    let w = strings(&["search", "-p", "txt"]);
    assert!(contains_word(&w, "-p"));
    assert!(!contains_word(&w, "-x"));
}

#[test]
fn contains_text_finds_infixes() {
    assert!(contains_text("report.txt", "port"));
    assert!(contains_text("report.txt", "report.txt"));
    assert!(contains_text("report.txt", ""));
    assert!(!contains_text("report.txt", "txt2"));
    assert!(!contains_text("ab", "abc"));
}

#[test]
fn joining_words() {
    assert_eq!(join_with(&strings(&["a", "b", "c"]), ", "), "a, b, c");
    assert_eq!(join_with(&strings(&["a"]), ", "), "a");
    assert_eq!(join_with(&Vec::new(), ", "), "");
    assert_eq!(spaced_words(&strings(&["search", "-x", "txt"])), "search -x txt ");
    assert_eq!(spaced_words(&Vec::new()), "");
}

#[test]
fn decimal_numerals() {
    assert_eq!(decimal_text(0), "0");
    assert_eq!(decimal_text(7), "7");
    assert_eq!(decimal_text(4096), "4096");
    assert_eq!(decimal_text(u64::MAX), "18446744073709551615");
}

#[test]
fn parsing_sizes() {
    assert_eq!(parse_usize("42"), Some(42));
    assert_eq!(parse_usize("+7"), Some(7));
    assert_eq!(parse_usize("007"), Some(7));
    assert_eq!(parse_usize("-7"), None);
    assert_eq!(parse_usize("+"), None);
    assert_eq!(parse_usize(""), None);
    assert_eq!(parse_usize("12a"), None);
    assert_eq!(parse_usize(" 12"), None);
    let too_big = format!("{}0", usize::MAX);
    assert_eq!(parse_usize(&too_big), None);
    assert_eq!(parse_usize(&usize::MAX.to_string()), Some(usize::MAX));
    for s in ["0", "+12", "-1", "99x", "", "340282366920938463463374607431768211456"] {
        assert_eq!(parse_usize(s), s.parse::<usize>().ok());
    }
}

#[test]
fn pushing_paths() {
    assert_eq!(push_path("./server_privateFiles/alice", "a.txt"), "./server_privateFiles/alice/a.txt");
    assert_eq!(push_path("./server_publicFiles/", "a.txt"), "./server_publicFiles/a.txt");
    assert_eq!(push_path("base", "/etc/passwd"), "/etc/passwd");
    assert_eq!(push_path("", "a"), "a");
    assert_eq!(push_path("dir", ""), "dir/");
    for (b, p) in [("./x", "y"), ("./x/", "y"), ("x", "/y"), ("", ""), ("a", "b/c")] {
        let mut expected = std::path::PathBuf::from(b);
        expected.push(p);
        assert_eq!(push_path(b, p), expected.to_str().unwrap());
    }
}

#[test]
fn last_component_of_a_path() {
    assert_eq!(file_name_of("../client_dir/test1.txt"), "test1.txt");
    assert_eq!(file_name_of("plain.txt"), "plain.txt");
    assert_eq!(file_name_of("a/b/"), "");
}

#[test]
fn extensions_of_file_names() {
    assert_eq!(extension_of("a.txt"), Some("txt".to_string()));
    assert_eq!(extension_of("x.tar.gz"), Some("gz".to_string()));
    assert_eq!(extension_of(".a.b"), Some("b".to_string()));
    assert_eq!(extension_of("a."), Some("".to_string()));
    assert_eq!(extension_of(".bashrc"), None);
    assert_eq!(extension_of("noext"), None);
    assert_eq!(extension_of(".."), None);
    for name in ["a.txt", ".bashrc", "a.", "..", "x.y.z", "noext", ".x."] {
        let std_ext = std::path::Path::new(name).extension().map(|e| e.to_str().unwrap().to_string());
        assert_eq!(extension_of(name), std_ext);
    }
}

