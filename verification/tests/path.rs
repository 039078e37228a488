use counterfeit::path::name_stem;
use counterfeit::path::path_components;
use counterfeit::path::path_file_stem;
use counterfeit::path::path_has_extension;
use std::path::Component;
use std::path::Path;

fn chars(s: &str) -> Vec<char> {
    s.chars().collect()
}

fn segments(path: &str) -> Vec<String> {
    path_components(path).iter().map(|segment| segment.iter().collect()).collect()
}

fn std_segments(path: &str) -> Vec<String> {
    Path::new(path)
        .components()
        .map(|component| match component {
            Component::RootDir => "/".to_string(),
            other => other.as_os_str().to_str().unwrap().to_string(),
        })
        .collect()
}

const SAMPLES: [&str; 24] = [
    "",
    "/",
    "//",
    ".",
    "./",
    "..",
    "a",
    "a/b",
    "a//b",
    "a/b/",
    "a/./b",
    "a/b/.",
    "./a/b",
    "/a/b",
    "/./a",
    "/a/../b",
    "../a",
    "./responses/users/42",
    "./responses/users/_id_/posts",
    "responses/get_a.json",
    "responses/.hidden",
    "responses/archive.tar.gz",
    "responses/name.",
    "responses/..json",
];

#[test]
fn components_of_plain_paths() {
    assert_eq!(segments("a/b"), vec!["a", "b"]);
    assert_eq!(segments("./responses/users/42"), vec![".", "responses", "users", "42"]);
    assert_eq!(segments("/users/42"), vec!["/", "users", "42"]);
}

#[test]
fn components_skip_empty_and_dot_pieces() {
    assert_eq!(segments("a//b"), vec!["a", "b"]);
    assert_eq!(segments("a/b/"), vec!["a", "b"]);
    assert_eq!(segments("a/./b"), vec!["a", "b"]);
    assert_eq!(segments("a/b/."), vec!["a", "b"]);
    assert_eq!(segments("/./a"), vec!["/", "a"]);
    assert_eq!(segments("a/../b"), vec!["a", "..", "b"]);
}

#[test]
fn components_of_degenerate_paths() {
    assert!(segments("").is_empty());
    assert_eq!(segments("/"), vec!["/"]);
    assert_eq!(segments("."), vec!["."]);
    assert_eq!(segments("./"), vec!["."]);
    assert_eq!(segments("//"), vec!["/"]);
}

#[test]
fn components_agree_with_the_standard_library() {
    for sample in SAMPLES.iter() {
        assert_eq!(segments(sample), std_segments(sample), "path {:?}", sample);
    }
}

#[test]
fn stem_stands_before_the_last_dot() {
    assert_eq!(name_stem(&chars("get.json")), chars("get"));
    assert_eq!(name_stem(&chars("get_a.tar.gz")), chars("get_a.tar"));
    assert_eq!(name_stem(&chars("get")), chars("get"));
    assert_eq!(name_stem(&chars(".hidden")), chars(".hidden"));
    assert_eq!(name_stem(&chars("name.")), chars("name"));
    assert_eq!(name_stem(&chars("..json")), chars("."));
    assert_eq!(name_stem(&chars("")), chars(""));
}

#[test]
fn file_stem_of_paths() {
    assert_eq!(path_file_stem("responses/users/get_a.json"), Some(chars("get_a")));
    assert_eq!(path_file_stem("responses/users/"), Some(chars("users")));
    assert_eq!(path_file_stem("/"), None);
    assert_eq!(path_file_stem(""), None);
    assert_eq!(path_file_stem("a/.."), None);
    assert_eq!(path_file_stem("."), None);
}

#[test]
fn file_stem_agrees_with_the_standard_library() {
    for sample in SAMPLES.iter() {
        let expected: Option<Vec<char>> =
            Path::new(sample).file_stem().map(|stem| stem.to_str().unwrap().chars().collect());
        assert_eq!(path_file_stem(sample), expected, "path {:?}", sample);
    }
}

#[test]
fn extension_is_what_follows_the_last_dot() {
    assert!(path_has_extension("responses/get.json", "json"));
    assert!(path_has_extension("responses/get.tar.json", "json"));
    assert!(!path_has_extension("responses/get.txt", "json"));
    assert!(!path_has_extension("responses/get", "json"));
    assert!(!path_has_extension("responses/.json", "json"));
    assert!(!path_has_extension("responses/json", "json"));
    assert!(!path_has_extension("responses/get.JSON", "json"));
    assert!(!path_has_extension("", "json"));
}

#[test]
fn extension_agrees_with_the_standard_library() {
    for sample in SAMPLES.iter() {
        let expected = Path::new(sample).extension().map(|e| e == "json").unwrap_or(false);
        assert_eq!(path_has_extension(sample, "json"), expected, "path {:?}", sample);
    }
}
