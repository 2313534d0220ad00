use bloxtree::error::Error;
use bloxtree::path::{validate, white_space};

#[test]
fn valid_paths() {
    assert!(validate("a").is_ok());
    assert!(validate("a/b").is_ok());
    assert!(validate("documents/report.txt").is_ok());
    assert!(validate("a/b/c/d/e").is_ok());
}

#[test]
fn rejects_empty() {
    assert!(validate("").is_err());
}

#[test]
fn rejects_null_byte() {
    assert!(validate("a\0b").is_err());
}

#[test]
fn rejects_leading_whitespace() {
    assert!(validate(" a").is_err());
}

#[test]
fn rejects_trailing_whitespace() {
    assert!(validate("a ").is_err());
}

fn problem(path: &str) -> String {
    match validate(path) {
        Ok(()) => String::new(),
        Err(e) => e.message(),
    }
}

#[test]
fn problems_are_named() {
    assert_eq!(problem(""), "invalid path: path is empty");
    assert_eq!(problem("a\0b"), "invalid path: path contains null byte");
    assert_eq!(problem("\ta"), "invalid path: path has leading or trailing whitespace");
    assert_eq!(problem("a\u{3000}"), "invalid path: path has leading or trailing whitespace");
    assert_eq!(problem("/a"), "invalid path: path is not allowed to start with a slash");
    assert_eq!(problem("a/"), "invalid path: path is not allowed to end with a slash");
    assert_eq!(problem("a b"), "");
}

#[test]
fn first_problem_counts() {
    assert_eq!(problem(" \0"), "invalid path: path contains null byte");
    assert_eq!(problem("/ "), "invalid path: path has leading or trailing whitespace");
    assert_eq!(problem("/"), "invalid path: path is not allowed to start with a slash");
    assert!(matches!(validate("/"), Err(Error::InvalidPath(_))));
}

#[test]
fn white_space_is_that_of_unicode() {
    let mut n: u32 = 0;
    while n <= 0x10ffff {
        if let Some(c) = char::from_u32(n) {
            assert_eq!(white_space(c), c.is_whitespace());
        }
        n += 1;
    }
}
