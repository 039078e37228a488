use counterfeit::config::CounterfeitConfig;
use counterfeit::default::DefaultRequest;
use counterfeit::rest::rest_dir_dispatcher::best_match;
use counterfeit::rest::rest_dir_dispatcher::RestDirDispatcher;

fn config(base: &str) -> CounterfeitConfig {
    CounterfeitConfig {
        base_path: base.to_string(),
        write: false,
        create_missing: false,
        silent: true,
        prefix: "_".to_string(),
        postfix: "_".to_string(),
    }
}

fn get(path: &str) -> DefaultRequest {
    DefaultRequest { method: "GET".to_string(), uri_path: path.to_string() }
}

fn dirs(paths: &[&str]) -> Vec<String> {
    paths.iter().map(|path| path.to_string()).collect()
}

#[test]
fn literal_path_is_base_path_and_request_path() {
    let dispatcher = RestDirDispatcher::new(config("basePath"));
    assert_eq!(dispatcher.literal_path(&get("/users/42")), "basePath/users/42");
    assert_eq!(dispatcher.literal_path(&get("/")), "basePath/");
    assert_eq!(dispatcher.base_path(), "basePath");
}

#[test]
fn exact_path_takes_precedence() {
    let dispatcher = RestDirDispatcher::new(config("basePath"));
    let tree = dirs(&["basePath", "basePath/users", "basePath/users/42", "basePath/users/_id_"]);
    assert_eq!(dispatcher.dispatch(&get("/users/42"), true, &tree), "basePath/users/42");
    let reordered =
        dirs(&["basePath", "basePath/users", "basePath/users/_id_", "basePath/users/42"]);
    assert_eq!(dispatcher.dispatch(&get("/users/42"), true, &reordered), "basePath/users/42");
}

#[test]
fn existing_literal_path_wins_even_against_a_full_score() {
    let dispatcher = RestDirDispatcher::new(config("basePath"));
    let tree = dirs(&["basePath/users/./42"]);
    assert_eq!(dispatcher.dispatch(&get("/users/42"), true, &tree), "basePath/users/42");
    assert_eq!(dispatcher.dispatch(&get("/users/42"), false, &tree), "basePath/users/./42");
}

#[test]
fn parameter_directory_answers_when_the_literal_path_is_missing() {
    let dispatcher = RestDirDispatcher::new(config("basePath"));
    let tree = dirs(&["basePath", "basePath/users", "basePath/users/_id_"]);
    assert_eq!(dispatcher.dispatch(&get("/users/42"), false, &tree), "basePath/users/_id_");
}

#[test]
fn best_match_wins() {
    let dispatcher = RestDirDispatcher::new(config("basePath"));
    let tree = dirs(&[
        "basePath",
        "basePath/users",
        "basePath/users/_id_",
        "basePath/users/_id_/posts",
        "basePath/users/42",
        "basePath/users/42/_id_",
    ]);
    assert_eq!(dispatcher.dispatch(&get("/users/42/5"), false, &tree), "basePath/users/42/_id_");
}

#[test]
fn more_exact_segments_beat_more_parameters() {
    let dispatcher = RestDirDispatcher::new(config("basePath"));
    let tree = dirs(&[
        "basePath/_a_/_b_/_c_",
        "basePath/users/42/_id_",
        "basePath/users/_id_/_post_",
    ]);
    assert_eq!(dispatcher.dispatch(&get("/users/42/5"), false, &tree), "basePath/users/42/_id_");
    let reversed = dirs(&[
        "basePath/users/_id_/_post_",
        "basePath/users/42/_id_",
        "basePath/_a_/_b_/_c_",
    ]);
    assert_eq!(
        dispatcher.dispatch(&get("/users/42/5"), false, &reversed),
        "basePath/users/42/_id_"
    );
}

#[test]
fn directories_with_another_segment_count_never_match() {
    let dispatcher = RestDirDispatcher::new(config("basePath"));
    let tree = dirs(&["basePath", "basePath/_a_", "basePath/_a_/_b_/_c_"]);
    assert_eq!(dispatcher.dispatch(&get("/users/42"), false, &tree), "basePath/users/42");
    assert_eq!(best_match("basePath/users/42", &tree, &config("basePath")), None);
}

#[test]
fn unmatched_request_falls_back_to_the_literal_path() {
    let dispatcher = RestDirDispatcher::new(config("basePath"));
    let tree = dirs(&["basePath", "basePath/users", "basePath/users/43"]);
    assert_eq!(dispatcher.dispatch(&get("/users/42"), false, &tree), "basePath/users/42");
    let nothing: Vec<String> = Vec::new();
    assert_eq!(dispatcher.dispatch(&get("/users/42"), false, &nothing), "basePath/users/42");
}

#[test]
fn last_of_equal_scores_wins() {
    let settings = config("basePath");
    let tree = dirs(&["basePath/_a_/42", "basePath/users/_id_", "basePath/_x_/_y_"]);
    assert_eq!(best_match("basePath/users/42", &tree, &settings), Some(1));
    let swapped = dirs(&["basePath/users/_id_", "basePath/_a_/42", "basePath/_x_/_y_"]);
    assert_eq!(best_match("basePath/users/42", &swapped, &settings), Some(1));
    let dispatcher = RestDirDispatcher::new(config("basePath"));
    assert_eq!(dispatcher.dispatch(&get("/users/42"), false, &swapped), "basePath/_a_/42");
}

#[test]
fn resolved_directory_has_as_many_segments_as_the_request() {
    let dispatcher = RestDirDispatcher::new(config("./responses"));
    let tree = dirs(&["./responses", "./responses/users", "./responses/users/_id_"]);
    let found = dispatcher.dispatch(&get("/users/42/"), false, &tree);
    assert_eq!(found, "./responses/users/_id_");
    assert_eq!(
        counterfeit::path::path_components(&found).len(),
        counterfeit::path::path_components("./responses/users/42/").len()
    );
}
