use counterfeit::error::Error;
use counterfeit::error::ErrorKind;
use counterfeit::error::IoError;
use counterfeit::path::canonical_path;
use counterfeit::text::chars_of;
use counterfeit::text::ends_with;
use counterfeit::text::same_chars;
use counterfeit::text::starts_with;

fn chars(s: &str) -> Vec<char> {
    s.chars().collect()
}

#[test]
fn characters_of_a_string() {
    assert_eq!(chars_of("get_a"), vec!['g', 'e', 't', '_', 'a']);
    assert_eq!(chars_of(""), Vec::<char>::new());
    assert_eq!(chars_of("äß"), vec!['ä', 'ß']);
}

#[test]
fn same_characters() {
    assert!(same_chars(&chars("users"), &chars("users")));
    assert!(same_chars(&chars(""), &chars("")));
    assert!(!same_chars(&chars("users"), &chars("user")));
    assert!(!same_chars(&chars("users"), &chars("userz")));
    assert!(!same_chars(&chars("Users"), &chars("users")));
}

#[test]
fn prefixes() {
    assert!(starts_with(&chars("get_a"), &chars("get_")));
    assert!(starts_with(&chars("get_a"), &chars("")));
    assert!(starts_with(&chars("get_a"), &chars("get_a")));
    assert!(!starts_with(&chars("get"), &chars("get_")));
    assert!(!starts_with(&chars("xget_"), &chars("get_")));
}

#[test]
fn suffixes() {
    assert!(ends_with(&chars("_id_"), &chars("_")));
    assert!(ends_with(&chars("_id_"), &chars("")));
    assert!(ends_with(&chars("a.json"), &chars(".json")));
    assert!(!ends_with(&chars("json"), &chars(".json")));
    assert!(!ends_with(&chars("a.jsonx"), &chars(".json")));
}

#[test]
fn canonical_spelling_joins_the_segments() {
    assert_eq!(canonical_path("a//b/./c/"), "a/b/c");
    assert_eq!(canonical_path("/a/b"), "/a/b");
    assert_eq!(canonical_path("//a"), "/a");
    assert_eq!(canonical_path("./a/"), "./a");
    assert_eq!(canonical_path("/"), "/");
    assert_eq!(canonical_path(""), "");
    assert_eq!(canonical_path("a/../b"), "a/../b");
}

#[test]
fn canonical_spelling_is_stable() {
    for path in ["a//b/./c/", "/", "./x/.", "//a//", "", "../a/."] {
        let once = canonical_path(path);
        assert_eq!(canonical_path(&once), once);
    }
}

#[test]
fn errors_carry_kind_and_message() {
    let missing = Error::new(ErrorKind::NotFound, "gone");
    assert_eq!(missing.kind(), ErrorKind::NotFound);
    assert!(missing.is_not_found());
    assert_eq!(missing.message(), "gone");
    let other = Error::new(ErrorKind::Other, "broken");
    assert_eq!(other.kind(), ErrorKind::Other);
    assert!(!other.is_not_found());
    assert_eq!(other.message(), "broken");
    assert_eq!(
        other,
        Error::IoError(IoError { kind: ErrorKind::Other, message: "broken".to_string() })
    );
    assert_eq!(IoError::new(ErrorKind::NotFound, "x").message, "x");
}

#[test]
fn no_files_available_is_a_not_found_failure() {
    let failure = Error::no_files_available();
    assert_eq!(failure.kind(), ErrorKind::NotFound);
    assert_eq!(failure.message(), "No files available");
}
