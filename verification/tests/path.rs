use dfrs::path::{is_prefix_of, path_components, path_starts_with};
use std::path::Path;

fn parts(path: &str) -> Vec<String> {
    let chars: Vec<char> = path.chars().collect();
    path_components(&chars).iter().map(|c| c.iter().collect()).collect()
}

#[test]
fn components_of_absolute_paths() {
    assert_eq!(parts("/"), vec!["/"]);
    assert_eq!(parts("/a/b"), vec!["/", "a", "b"]);
    assert_eq!(parts("//a///b//"), vec!["/", "a", "b"]);
    assert_eq!(parts("/a/./b/."), vec!["/", "a", "b"]);
    assert_eq!(parts("/a/../b"), vec!["/", "a", "..", "b"]);
    assert_eq!(parts("/./a"), vec!["/", "a"]);
}

#[test]
fn components_of_relative_paths() {
    assert!(parts("").is_empty());
    assert_eq!(parts("a"), vec!["a"]);
    assert_eq!(parts("a/b/"), vec!["a", "b"]);
    assert_eq!(parts("."), vec!["."]);
    assert_eq!(parts("./a/./b"), vec![".", "a", "b"]);
    assert_eq!(parts(".a/b"), vec![".a", "b"]);
    assert_eq!(parts("a/."), vec!["a"]);
    assert_eq!(parts(".."), vec![".."]);
    assert_eq!(parts("./"), vec!["."]);
}

#[test]
fn prefix_matches_whole_components_only() {
    assert!(path_starts_with("/a/b/c", "/a/b"));
    assert!(path_starts_with("/a/b", "/a/b"));
    assert!(path_starts_with("/a/b", "/"));
    assert!(path_starts_with("/a/b", "/a/"));
    assert!(path_starts_with("/a/b", ""));
    assert!(!path_starts_with("/a/bc", "/a/b"));
    assert!(!path_starts_with("/a", "/a/b"));
    assert!(!path_starts_with("/a/b", "a"));
    assert!(!path_starts_with("a/b", "/a"));
    assert!(!path_starts_with("/a/b", "/b"));
}

#[test]
fn prefix_agrees_with_the_standard_library() {
    let paths = [
        "", "/", "/a", "/a/", "/a/b", "/a//b", "/a/./b", "/a/b/..", "a", "a/b", "./a", ".", "..",
        "../a", "/ab", "/a b", "/\u{e9}", "/a/b/c/d", "//", "/.", "./", "a/.", "./.", ".a",
    ];
    for path in paths {
        for base in paths {
            assert_eq!(
                path_starts_with(path, base),
                Path::new(path).starts_with(base),
                "{:?} {:?}",
                path,
                base
            );
        }
    }
}

#[test]
fn prefix_of_component_lists() {
    let a: Vec<Vec<char>> = vec![vec!['x'], vec!['y', 'z']];
    let b: Vec<Vec<char>> = vec![vec!['x'], vec!['y', 'z'], vec!['w']];
    assert!(is_prefix_of(&a, &b));
    assert!(is_prefix_of(&a, &a));
    assert!(is_prefix_of(&[], &a));
    assert!(!is_prefix_of(&b, &a));
    assert!(!is_prefix_of(&[vec!['y']], &a));
}
