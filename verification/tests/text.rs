use writeme::text::{cut, ends_with, find_after_last, find_first, join, same_text};

#[test]
fn finds_first_occurrence() {
    assert_eq!(find_first("a/b/c", '/', 0, 5), 1);
    assert_eq!(find_first("a/b/c", '/', 2, 5), 3);
    assert_eq!(find_first("a/b/c", '/', 4, 5), 5);
    assert_eq!(find_first("a/b/c", ':', 0, 5), 5);
    assert_eq!(find_first("a/b/c", '/', 0, 1), 1);
    assert_eq!(find_first("", '/', 0, 0), 0);
}

#[test]
fn finds_end_of_last_occurrence() {
    assert_eq!(find_after_last("a/b/c", '/', 0, 5), 4);
    assert_eq!(find_after_last("a/b/c", '/', 0, 3), 2);
    assert_eq!(find_after_last("a/b/c", ':', 0, 5), 0);
    assert_eq!(find_after_last("a/b/c", '/', 2, 3), 2);
    assert_eq!(find_after_last("a/b/c", '/', 4, 5), 4);
}

#[test]
fn tests_suffixes() {
    assert!(ends_with("license.txt", ".txt"));
    assert!(ends_with("license.txt", "license.txt"));
    assert!(ends_with("license.txt", ""));
    assert!(!ends_with("license.txt", "license"));
    assert!(!ends_with("txt", "license.txt"));
    assert!(!ends_with("license.txT", ".txt"));
}

#[test]
fn counts_characters_not_bytes() {
    assert_eq!(find_first("héé/x", '/', 0, 5), 3);
    assert_eq!(cut("héé/x", 1, 4), "éé/");
    assert!(ends_with("naïve.git", ".git"));
}

#[test]
fn cuts_and_joins() {
    assert_eq!(cut("abcdef", 2, 4), "cd");
    assert_eq!(cut("abcdef", 0, 6), "abcdef");
    assert_eq!(cut("abcdef", 3, 3), "");
    assert_eq!(join("package.json", "$"), "package.json$");
    assert_eq!(join("", ""), "");
}

#[test]
fn compares_texts() {
    assert!(same_text("abc", "abc"));
    assert!(same_text("", ""));
    assert!(!same_text("abc", "abd"));
    assert!(!same_text("abc", "ab"));
    assert!(!same_text("bc", "abc"));
}
